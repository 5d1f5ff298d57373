//! Byte-wise lexicographic ordering of file names, the ordering mechanism
//! callers of the defaults directory rely on (numeric or alphabetic name
//! prefixes), and the configuration-file suffix test.

use vstd::prelude::*;
use vstd::utf8::encode_utf8;

verus! {

/// Lexicographic less-or-equal on byte sequences.
pub open spec fn bytes_le(a: Seq<u8>, b: Seq<u8>) -> bool
    decreases a.len(),
{
    if a.len() == 0 {
        true
    } else if b.len() == 0 {
        false
    } else if a[0] < b[0] {
        true
    } else if a[0] > b[0] {
        false
    } else {
        bytes_le(a.drop_first(), b.drop_first())
    }
}

/// File-name order: lexicographic on the name's bytes.
pub open spec fn name_le(a: Seq<char>, b: Seq<char>) -> bool {
    bytes_le(encode_utf8(a), encode_utf8(b))
}

/// The order is total.
pub proof fn lemma_bytes_le_total(a: Seq<u8>, b: Seq<u8>)
    ensures
        bytes_le(a, b) || bytes_le(b, a),
    decreases a.len(),
{
    if a.len() > 0 && b.len() > 0 && a[0] == b[0] {
        lemma_bytes_le_total(a.drop_first(), b.drop_first());
    }
}

/// The order is transitive.
pub proof fn lemma_bytes_le_trans(a: Seq<u8>, b: Seq<u8>, c: Seq<u8>)
    requires
        bytes_le(a, b),
        bytes_le(b, c),
    ensures
        bytes_le(a, c),
    decreases a.len(),
{
    if a.len() > 0 && b.len() > 0 && c.len() > 0 {
        if a[0] == b[0] && b[0] == c[0] {
            lemma_bytes_le_trans(a.drop_first(), b.drop_first(), c.drop_first());
        }
    }
}

/// The order is antisymmetric: mutually ordered byte sequences are equal.
pub proof fn lemma_bytes_le_antisym(a: Seq<u8>, b: Seq<u8>)
    requires
        bytes_le(a, b),
        bytes_le(b, a),
    ensures
        a == b,
    decreases a.len(),
{
    if a.len() == 0 {
        assert(a =~= b);
    } else {
        lemma_bytes_le_antisym(a.drop_first(), b.drop_first());
        assert forall|i: int| 0 <= i < a.len() implies a[i] == b[i] by {
            if i > 0 {
                assert(a.drop_first()[i - 1] == a[i]);
                assert(b.drop_first()[i - 1] == b[i]);
            }
        }
        assert(a =~= b);
    }
}

/// Dropping an equal prefix does not change the order.
proof fn lemma_bytes_le_skip_prefix(a: Seq<u8>, b: Seq<u8>, i: int)
    requires
        0 <= i <= a.len(),
        i <= b.len(),
        forall|j: int| 0 <= j < i ==> a[j] == b[j],
    ensures
        bytes_le(a, b) == bytes_le(
            a.subrange(i, a.len() as int),
            b.subrange(i, b.len() as int),
        ),
    decreases i,
{
    if i == 0 {
        assert(a.subrange(0, a.len() as int) =~= a);
        assert(b.subrange(0, b.len() as int) =~= b);
    } else {
        assert(a.len() > 0 && b.len() > 0 && a[0] == b[0]);
        lemma_bytes_le_skip_prefix(a.drop_first(), b.drop_first(), i - 1);
        assert(a.drop_first().subrange(i - 1, a.drop_first().len() as int) =~= a.subrange(
            i,
            a.len() as int,
        ));
        assert(b.drop_first().subrange(i - 1, b.drop_first().len() as int) =~= b.subrange(
            i,
            b.len() as int,
        ));
    }
}

/// Compares two names in file-name order.
pub fn compare_names(a: &str, b: &str) -> (r: bool)
    ensures
        r == name_le(a@, b@),
{
    let ab = a.as_bytes();
    let bb = b.as_bytes();
    let mut i: usize = 0;
    loop
        invariant
            ab@ == encode_utf8(a@),
            bb@ == encode_utf8(b@),
            i <= ab@.len(),
            i <= bb@.len(),
            forall|j: int| 0 <= j < i ==> ab@[j] == bb@[j],
        decreases ab@.len() - i,
    {
        proof {
            lemma_bytes_le_skip_prefix(ab@, bb@, i as int);
        }
        if i >= ab.len() {
            return true;
        }
        if i >= bb.len() {
            proof {
                assert(ab@.subrange(i as int, ab@.len() as int).len() > 0);
                assert(bb@.subrange(i as int, bb@.len() as int).len() == 0);
            }
            return false;
        }
        let x = ab[i];
        let y = bb[i];
        proof {
            assert(ab@.subrange(i as int, ab@.len() as int)[0] == ab@[i as int]);
            assert(bb@.subrange(i as int, bb@.len() as int)[0] == bb@[i as int]);
        }
        if x < y {
            return true;
        }
        if x > y {
            return false;
        }
        i += 1;
    }
}

/// Whether a file name ends in the configuration-file suffix.
pub open spec fn is_toml_name(n: Seq<char>) -> bool {
    let nb = encode_utf8(n);
    let t = encode_utf8(".toml"@);
    nb.len() >= t.len() && nb.subrange(nb.len() - t.len(), nb.len() as int) == t
}

/// Tests the configuration-file suffix.
pub fn has_toml_suffix(name: &str) -> (r: bool)
    ensures
        r == is_toml_name(name@),
{
    let nb = name.as_bytes();
    let sb = ".toml".as_bytes();
    if nb.len() < sb.len() {
        return false;
    }
    let start: usize = nb.len() - sb.len();
    let ghost tail = nb@.subrange(nb@.len() - sb@.len(), nb@.len() as int);
    let mut j: usize = 0;
    while j < sb.len()
        invariant
            nb@ == encode_utf8(name@),
            sb@ == encode_utf8(".toml"@),
            start == nb@.len() - sb@.len(),
            nb@.len() <= usize::MAX,
            tail == nb@.subrange(nb@.len() - sb@.len(), nb@.len() as int),
            j <= sb@.len(),
            forall|m: int| 0 <= m < j ==> tail[m] == sb@[m],
        decreases sb@.len() - j,
    {
        let x = nb[start + j];
        let y = sb[j];
        proof {
            assert(tail[j as int] == nb@[start + j]);
        }
        if x != y {
            return false;
        }
        j += 1;
    }
    proof {
        assert(tail =~= sb@);
    }
    true
}

} // verus!
