//! Deterministic node ids: the id of a node is a content hash of its
//! qualified name, so re-running the same graph path yields the same id
//! on every machine and in every process.

use vstd::prelude::*;
use vstd::string::StringExecFns;
use vstd::string::StringSliceAdditionalSpecFns;

verus! {

/// Offset basis of the 64-bit FNV-1a hash.
pub const FNV_OFFSET: u64 = 0xcbf29ce484222325;

/// Prime of the 64-bit FNV-1a hash.
pub const FNV_PRIME: u64 = 0x100000001b3;

/// The 64-bit FNV-1a hash of `bytes`: fold each byte in by exclusive-or,
/// then multiply by the prime, wrapping.
pub open spec fn spec_fnv1a(bytes: Seq<u8>) -> u64
    decreases bytes.len(),
{
    if bytes.len() == 0 {
        FNV_OFFSET
    } else {
        vstd::wrapping::u64_specs::wrapping_mul(
            spec_fnv1a(bytes.drop_last()) ^ (bytes.last() as u64),
            FNV_PRIME,
        )
    }
}

/// The lower-case hex digit for a value below 16.
pub open spec fn hex_digit(d: u64) -> char {
    if d == 0 {
        '0'
    } else if d == 1 {
        '1'
    } else if d == 2 {
        '2'
    } else if d == 3 {
        '3'
    } else if d == 4 {
        '4'
    } else if d == 5 {
        '5'
    } else if d == 6 {
        '6'
    } else if d == 7 {
        '7'
    } else if d == 8 {
        '8'
    } else if d == 9 {
        '9'
    } else if d == 10 {
        'a'
    } else if d == 11 {
        'b'
    } else if d == 12 {
        'c'
    } else if d == 13 {
        'd'
    } else if d == 14 {
        'e'
    } else {
        'f'
    }
}

/// The 16 hex digits of a 64-bit value, most significant first.
pub open spec fn spec_hex64(h: u64) -> Seq<char> {
    Seq::new(16, |i: int| hex_digit((h >> ((60 - 4 * i) as u64)) & 0xf))
}

/// The id derived from a node name's bytes: the hex form of its hash —
/// a function of the bytes alone.
pub open spec fn spec_node_id(bytes: Seq<u8>) -> Seq<char> {
    spec_hex64(spec_fnv1a(bytes))
}

/// One hex digit as text.
fn hex_char_str(d: u64) -> (r: &'static str)
    requires
        d < 16,
    ensures
        r@ == seq![hex_digit(d)],
{
    let r: &'static str = if d == 0 {
        "0"
    } else if d == 1 {
        "1"
    } else if d == 2 {
        "2"
    } else if d == 3 {
        "3"
    } else if d == 4 {
        "4"
    } else if d == 5 {
        "5"
    } else if d == 6 {
        "6"
    } else if d == 7 {
        "7"
    } else if d == 8 {
        "8"
    } else if d == 9 {
        "9"
    } else if d == 10 {
        "a"
    } else if d == 11 {
        "b"
    } else if d == 12 {
        "c"
    } else if d == 13 {
        "d"
    } else if d == 14 {
        "e"
    } else {
        "f"
    };
    proof {
        reveal_strlit("0");
        reveal_strlit("1");
        reveal_strlit("2");
        reveal_strlit("3");
        reveal_strlit("4");
        reveal_strlit("5");
        reveal_strlit("6");
        reveal_strlit("7");
        reveal_strlit("8");
        reveal_strlit("9");
        reveal_strlit("a");
        reveal_strlit("b");
        reveal_strlit("c");
        reveal_strlit("d");
        reveal_strlit("e");
        reveal_strlit("f");
        assert(r@ =~= seq![hex_digit(d)]);
    }
    r
}

/// The deterministic id of a node, from its qualified name: the hex form
/// of the name's content hash. Equal names yield equal ids, across
/// re-runs of the same graph path.
pub fn node_id_of(name: &str) -> (r: String)
    ensures
        r@ == spec_node_id(name.spec_bytes()),
{
    let bytes = name.as_bytes();
    let n = bytes.len();
    let mut h: u64 = FNV_OFFSET;
    let mut i: usize = 0;
    while i < n
        invariant
            n == bytes@.len(),
            i <= n,
            h == spec_fnv1a(bytes@.take(i as int)),
        decreases n - i,
    {
        proof {
            assert(bytes@.take(i + 1).drop_last() =~= bytes@.take(i as int));
            assert(bytes@.take(i + 1).last() == bytes@[i as int]);
        }
        h = (h ^ (bytes[i] as u64)).wrapping_mul(FNV_PRIME);
        i = i + 1;
    }
    proof {
        assert(bytes@.take(n as int) =~= bytes@);
    }
    let mut out = String::new();
    let mut k: usize = 0;
    while k < 16
        invariant
            k <= 16,
            h == spec_fnv1a(name.spec_bytes()),
            out@ == spec_hex64(h).take(k as int),
        decreases 16 - k,
    {
        let sh: u64 = 60 - 4 * (k as u64);
        let d: u64 = (h >> sh) & 0xf;
        proof {
            assert((h >> sh) & 0xf < 16) by (bit_vector);
        }
        out.append(hex_char_str(d));
        proof {
            assert(out@ =~= spec_hex64(h).take(k as int + 1));
        }
        k = k + 1;
    }
    proof {
        assert(spec_hex64(h).take(16) =~= spec_hex64(h));
    }
    out
}

/// Law: the id is deterministic. Names with the same characters have the
/// same bytes, and so the same id — re-running the same graph path
/// re-derives the same node id.
pub proof fn lemma_equal_names_equal_ids(a: &str, b: &str)
    requires
        a@ == b@,
    ensures
        a.spec_bytes() == b.spec_bytes(),
        spec_node_id(a.spec_bytes()) == spec_node_id(b.spec_bytes()),
{
}

} // verus!
