//! Small byte-string helpers around the client: hex rendering and upload
//! path normalization. Text is carried as UTF-8 bytes, as the codec does.
use vstd::prelude::*;

verus! {

/// The lower-case hex digit of a value below sixteen, as an ASCII byte.
pub open spec fn hex_digit(n: int) -> u8 {
    if n < 10 {
        (0x30 + n) as u8
    } else {
        (0x61 + (n - 10)) as u8
    }
}

/// The two-digits-per-byte hex rendering of a byte string.
pub open spec fn hex_of(s: Seq<u8>) -> Seq<u8>
    decreases s.len(),
{
    if s.len() == 0 {
        Seq::empty()
    } else {
        seq![hex_digit(s[0] as int / 16), hex_digit(s[0] as int % 16)] + hex_of(s.skip(1))
    }
}

/// Render bytes as lower-case hex, two digits each.
pub fn to_hex(bytes: &[u8]) -> (out: Vec<u8>)
    ensures
        out@ == hex_of(bytes@),
{
    let digits: [u8; 16] = [
        0x30,
        0x31,
        0x32,
        0x33,
        0x34,
        0x35,
        0x36,
        0x37,
        0x38,
        0x39,
        0x61,
        0x62,
        0x63,
        0x64,
        0x65,
        0x66,
    ];
    let mut out: Vec<u8> = Vec::new();
    let mut i: usize = 0;
    proof {
        assert(bytes@.skip(0) =~= bytes@);
        assert(hex_of(bytes@) == hex_of(bytes@.skip(0)));
    }
    while i < bytes.len()
        invariant
            i <= bytes@.len(),
            digits@ =~= seq![
                0x30u8,
                0x31u8,
                0x32u8,
                0x33u8,
                0x34u8,
                0x35u8,
                0x36u8,
                0x37u8,
                0x38u8,
                0x39u8,
                0x61u8,
                0x62u8,
                0x63u8,
                0x64u8,
                0x65u8,
                0x66u8,
            ],
            out@ + hex_of(bytes@.skip(i as int)) == hex_of(bytes@),
        decreases bytes@.len() - i,
    {
        let b = *vstd::slice::slice_index_get(bytes, i);
        let hi = digits[(b / 16) as usize];
        let lo = digits[(b % 16) as usize];
        proof {
            assert(hi == hex_digit(b as int / 16));
            assert(lo == hex_digit(b as int % 16));
            assert(bytes@.skip(i as int)[0] == bytes@[i as int]);
            assert(bytes@.skip(i as int).skip(1) =~= bytes@.skip(i + 1));
        }
        out.push(hi);
        out.push(lo);
        i = i + 1;
        proof {
            assert(out@ + hex_of(bytes@.skip(i as int)) =~= hex_of(bytes@));
        }
    }
    proof {
        assert(bytes@.skip(bytes@.len() as int).len() == 0);
        assert(out@ =~= hex_of(bytes@));
    }
    out
}

/// What a normalized upload destination looks like: nothing for no path;
/// otherwise a leading slash put in front if missing, and every trailing
/// slash taken off.
pub open spec fn normalized_path(p: Seq<u8>) -> Seq<u8> {
    let with_slash = if p.len() > 0 && p[0] == 0x2Fu8 {
        p
    } else {
        seq![0x2Fu8] + p
    };
    with_slash.subrange(0, trimmed_len(with_slash))
}

/// The length after trailing slashes go.
pub open spec fn trimmed_len(p: Seq<u8>) -> int
    decreases p.len(),
{
    if p.len() == 0 {
        0
    } else if p[p.len() - 1] == 0x2Fu8 {
        trimmed_len(p.subrange(0, p.len() - 1))
    } else {
        p.len() as int
    }
}

/// Normalize an optional upload destination, as UTF-8 bytes: an absent path
/// is empty, a present one gains a leading slash if it lacks one and loses
/// every trailing slash.
pub fn normalize_upload_path(path: &Option<Vec<u8>>) -> (out: Vec<u8>)
    ensures
        out@ == match path {
            Option::Some(p) => normalized_path(p@),
            Option::None => Seq::<u8>::empty(),
        },
{
    match path {
        None => Vec::new(),
        Some(p) => {
            let mut out: Vec<u8> = Vec::new();
            if p.len() == 0 || p[0] != 0x2F {
                out.push(0x2F);
            }
            let mut i: usize = 0;
            while i < p.len()
                invariant
                    i <= p@.len(),
                    out@ == (if p@.len() > 0 && p@[0] == 0x2Fu8 {
                        Seq::<u8>::empty()
                    } else {
                        seq![0x2Fu8]
                    }) + p@.subrange(0, i as int),
                decreases p@.len() - i,
            {
                let b = p[i];
                out.push(b);
                i = i + 1;
                proof {
                    assert(out@ =~= (if p@.len() > 0 && p@[0] == 0x2Fu8 {
                        Seq::<u8>::empty()
                    } else {
                        seq![0x2Fu8]
                    }) + p@.subrange(0, i as int));
                }
            }
            let ghost ws = if p@.len() > 0 && p@[0] == 0x2Fu8 {
                p@
            } else {
                seq![0x2Fu8] + p@
            };
            proof {
                assert(p@.subrange(0, p@.len() as int) =~= p@);
                assert(out@ =~= ws);
            }
            while out.len() > 0 && out[out.len() - 1] == 0x2F
                invariant
                    trimmed_len(out@) == trimmed_len(ws),
                    out@.len() <= ws.len(),
                    out@ == ws.subrange(0, out@.len() as int),
                decreases out@.len(),
            {
                let ghost before = out@;
                out.pop();
                proof {
                    assert(out@ =~= before.subrange(0, before.len() - 1));
                    assert(out@ =~= ws.subrange(0, out@.len() as int));
                }
            }
            proof {
                if out@.len() > 0 {
                    assert(trimmed_len(out@) == out@.len() as int);
                }
                assert(out@ =~= ws.subrange(0, trimmed_len(ws)));
                assert(out@ =~= normalized_path(p@));
            }
            out
        },
    }
}

} // verus!
