use vstd::prelude::*;

verus! {

/// The name and version under which a contract's code was stored.
#[derive(Debug, PartialEq, Eq)]
pub struct ContractVersion {
    pub contract: String,
    pub version: String,
}

/// Why a migration was refused.
#[derive(Debug, PartialEq, Eq)]
pub enum MigrationError {
    /// The stored contract is another one.
    InvalidContract,
    /// The stored version is not the one the migration starts from.
    InvalidVersion { target: String, source: String },
}

/// Moves the stored version record of contract `name` from
/// `target_contract_version` to `version`; refuses a record of another
/// contract, or of another version.
pub fn migrate_version(
    stored: &mut ContractVersion,
    target_contract_version: &String,
    name: &String,
    version: &String,
) -> (r: Result<(), MigrationError>)
    ensures
        r is Err ==> *final(stored) == *old(stored),
        old(stored).contract@ != name@ ==> r == Err::<(), MigrationError>(
            MigrationError::InvalidContract,
        ),
        old(stored).contract@ == name@ && old(stored).version@ != target_contract_version@ ==> r
            == Err::<(), MigrationError>(
            MigrationError::InvalidVersion {
                target: *target_contract_version,
                source: old(stored).version,
            },
        ),
        old(stored).contract@ == name@ && old(stored).version@ == target_contract_version@ ==> {
            &&& r is Ok
            &&& final(stored).contract == *name
            &&& final(stored).version == *version
        },
{
    if !stored.contract.eq(name) {
        return Err(MigrationError::InvalidContract);
    }
    if !stored.version.eq(target_contract_version) {
        return Err(
            MigrationError::InvalidVersion {
                target: target_contract_version.clone(),
                source: stored.version.clone(),
            },
        );
    }
    stored.contract = name.clone();
    stored.version = version.clone();
    Ok(())
}

} // verus!
