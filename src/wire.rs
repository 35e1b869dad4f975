use vstd::prelude::*;

verus! {

/// `128` raised to `n`.
pub open spec fn pow128(n: nat) -> int
    decreases n,
{
    if n == 0 {
        1
    } else {
        128 * pow128((n - 1) as nat)
    }
}

/// The base-128 varint at `pos`, of at most `n` bytes: its value and the
/// position after it.
pub open spec fn varint(data: Seq<u8>, pos: int, n: nat) -> Option<(int, int)>
    decreases n,
{
    if n == 0 || pos < 0 || pos >= data.len() {
        None
    } else if data[pos] < 128 {
        Some((data[pos] as int, pos + 1))
    } else {
        match varint(data, pos + 1, (n - 1) as nat) {
            Some((v, next)) => Some(((data[pos] - 128) + 128 * v, next)),
            None => None,
        }
    }
}

/// A varint's value stays below `128^n`, and it ends within `n` bytes.
pub proof fn lemma_varint_bounds(data: Seq<u8>, pos: int, n: nat)
    ensures
        varint(data, pos, n) is Some ==> {
            let (v, next) = varint(data, pos, n)->0;
            &&& 0 <= v < pow128(n)
            &&& pos < next <= pos + n
            &&& next <= data.len()
        },
    decreases n,
{
    if n > 0 {
        lemma_pow128_positive((n - 1) as nat);
        if 0 <= pos < data.len() && data[pos] >= 128 {
            lemma_varint_bounds(data, pos + 1, (n - 1) as nat);
            if varint(data, pos + 1, (n - 1) as nat) is Some {
                let (w, _) = varint(data, pos + 1, (n - 1) as nat)->0;
                let p = pow128((n - 1) as nat);
                assert((data[pos] - 128) + 128 * w < 128 * p) by (nonlinear_arith)
                    requires
                        0 <= data[pos] - 128 < 128,
                        0 <= w < p,
                ;
            }
        }
    }
}

/// Powers of 128 are positive.
proof fn lemma_pow128_positive(n: nat)
    ensures
        pow128(n) >= 1,
    decreases n,
{
    if n > 0 {
        lemma_pow128_positive((n - 1) as nat);
    }
}

/// The value and end of the varint at `pos`, of at most `n` bytes.
pub fn read_varint(data: &Vec<u8>, pos: usize, n: u8) -> (r: Option<(u64, usize)>)
    requires
        n <= 9,
    ensures
        r == (match varint(data@, pos as int, n as nat) {
            Some((v, e)) => Some((v as u64, e as usize)),
            None => None::<(u64, usize)>,
        }),
    decreases n,
{
    if n == 0 || pos >= data.len() {
        return None;
    }
    let b = data[pos];
    if b < 128 {
        return Some((b as u64, pos + 1));
    }
    match read_varint(data, pos + 1, n - 1) {
        Some((v, next)) => {
            proof {
                lemma_varint_bounds(data@, pos + 1, (n - 1) as nat);
                lemma_pow128_bound((n - 1) as nat);
            }
            Some(((b - 128) as u64 + 128 * v, next))
        },
        None => None,
    }
}

/// `128^n` fits in 56 bits for `n` up to 8.
proof fn lemma_pow128_bound(n: nat)
    requires
        n <= 8,
    ensures
        1 <= pow128(n) <= 0x100000000000000,
{
    reveal_with_fuel(pow128, 9);
    assert(pow128(0) == 1);
    assert(pow128(1) == 0x80);
    assert(pow128(2) == 0x4000);
    assert(pow128(3) == 0x200000);
    assert(pow128(4) == 0x10000000);
    assert(pow128(5) == 0x800000000);
    assert(pow128(6) == 0x40000000000);
    assert(pow128(7) == 0x2000000000000);
    assert(pow128(8) == 0x100000000000000);
}

/// Where the payload of the field whose key ends at `p1` starts and ends,
/// given its wire type: a varint, eight bytes, a length-delimited run, or
/// four bytes. `None` for any other wire type or a field cut short.
pub open spec fn field_span(data: Seq<u8>, p1: int, wire_type: int) -> Option<(int, int)> {
    if wire_type == 0 {
        match varint(data, p1, 9) {
            Some((_, e)) => Some((p1, e)),
            None => None,
        }
    } else if wire_type == 1 {
        if p1 + 8 <= data.len() {
            Some((p1, p1 + 8))
        } else {
            None
        }
    } else if wire_type == 2 {
        match varint(data, p1, 5) {
            Some((l, p2)) => if p2 + l <= data.len() {
                Some((p2, p2 + l))
            } else {
                None
            },
            None => None,
        }
    } else if wire_type == 5 {
        if p1 + 4 <= data.len() {
            Some((p1, p1 + 4))
        } else {
            None
        }
    } else {
        None
    }
}

/// Scans the fields of a message from `pos` on, keeping the last
/// length-delimited field 1 seen (`found` before `pos`): that field, or
/// `None` when there is none or the message is malformed.
pub open spec fn scan_field_1(data: Seq<u8>, pos: int, found: Option<Seq<u8>>) -> Option<Seq<u8>>
    decreases data.len() - pos,
{
    if pos < 0 || pos >= data.len() {
        found
    } else {
        match varint(data, pos, 5) {
            None => None,
            Some((key, p1)) => match field_span(data, p1, key % 8) {
                None => None,
                Some((b, e)) => {
                    if e <= pos || e > data.len() || b < 0 || b > e {
                        None
                    } else {
                        let next_found = if key == 10 {
                            Some(data.subrange(b, e))
                        } else {
                            found
                        };
                        scan_field_1(data, e, next_found)
                    }
                },
            },
        }
    }
}

/// The address that the host's reply to an instantiation carries: field 1
/// (length-delimited) of the protobuf message, the last one if repeated.
pub open spec fn reply_address(data: Seq<u8>) -> Option<Seq<u8>> {
    scan_field_1(data, 0, None)
}

/// Copies `data[start..end]`.
pub fn copy_range(data: &Vec<u8>, start: usize, end: usize) -> (r: Vec<u8>)
    requires
        start <= end <= data@.len(),
    ensures
        r@ == data@.subrange(start as int, end as int),
{
    let mut out: Vec<u8> = Vec::new();
    let mut i: usize = start;
    while i < end
        invariant
            start <= i <= end,
            end <= data@.len(),
            out@ == data@.subrange(start as int, i as int),
        decreases end - i,
    {
        out.push(data[i]);
        assert(data@.subrange(start as int, i + 1) =~= data@.subrange(start as int, i as int).push(
            data@[i as int],
        ));
        i = i + 1;
    }
    out
}

/// Reads the address of a new contract out of the host's reply to its
/// instantiation: field 1 of the protobuf message, in any field order,
/// skipping the other fields.
pub fn parse_reply_address(data: &Vec<u8>) -> (r: Option<Vec<u8>>)
    ensures
        r is Some <==> reply_address(data@) is Some,
        r is Some ==> r->0@ == reply_address(data@)->0,
{
    let n = data.len();
    let mut pos: usize = 0;
    let mut found: Option<(usize, usize)> = None;
    let ghost gfound: Option<Seq<u8>> = None;
    while pos < n
        invariant
            n == data@.len(),
            pos <= n,
            match found {
                Some((a, b)) => a <= b <= n,
                None => true,
            },
            gfound == (match found {
                Some((a, b)) => Some(data@.subrange(a as int, b as int)),
                None => None::<Seq<u8>>,
            }),
            reply_address(data@) == scan_field_1(data@, pos as int, gfound),
        decreases n - pos,
    {
        let (key, p1) = match read_varint(data, pos, 5) {
            Some(kp) => kp,
            None => return None,
        };
        proof {
            lemma_varint_bounds(data@, pos as int, 5);
            lemma_pow128_bound(5);
        }
        let wire_type = key % 8;
        let end: usize;
        let mut start: usize = p1;
        if wire_type == 0 {
            match read_varint(data, p1, 9) {
                Some((_, e)) => {
                    proof {
                        lemma_varint_bounds(data@, p1 as int, 9);
                    }
                    end = e;
                },
                None => return None,
            }
        } else if wire_type == 1 {
            if p1 > n || n - p1 < 8 {
                return None;
            }
            end = p1 + 8;
        } else if wire_type == 2 {
            match read_varint(data, p1, 5) {
                Some((l, p2)) => {
                    proof {
                        lemma_varint_bounds(data@, p1 as int, 5);
                        lemma_pow128_bound(5);
                    }
                    if l > (n - p2) as u64 {
                        return None;
                    }
                    start = p2;
                    end = p2 + l as usize;
                },
                None => return None,
            }
        } else if wire_type == 5 {
            if p1 > n || n - p1 < 4 {
                return None;
            }
            end = p1 + 4;
        } else {
            return None;
        }
        assert(field_span(data@, p1 as int, (key % 8) as int) == Some((start as int, end as int)));
        if key == 10 {
            found = Some((start, end));
            proof {
                gfound = Some(data@.subrange(start as int, end as int));
            }
        }
        pos = end;
    }
    match found {
        Some((a, b)) => Some(copy_range(data, a, b)),
        None => None,
    }
}

} // verus!
