//! Byte-prefix checks that keep magic-byte detection of binary file types
//! unambiguous: no magic pattern may be a byte-prefix of another.

use vstd::prelude::*;

verus! {

/// `needle` is a prefix of `haystack` (equal length included).
pub open spec fn spec_is_prefix(needle: Seq<u8>, haystack: Seq<u8>) -> bool {
    needle.len() <= haystack.len() && haystack.subrange(0, needle.len() as int) =~= needle
}

/// Two patterns are prefix-related when either is a prefix of the other.
pub open spec fn prefix_related(a: Seq<u8>, b: Seq<u8>) -> bool {
    spec_is_prefix(a, b) || spec_is_prefix(b, a)
}

/// Some pattern of `a` is prefix-related to some pattern of `b`.
pub open spec fn spec_slices_conflict(a: Seq<&[u8]>, b: Seq<&[u8]>) -> bool {
    exists|i: int, j: int|
        0 <= i < a.len() && 0 <= j < b.len() && #[trigger] prefix_related(a[i]@, b[j]@)
}

/// Two distinct patterns of `p` are prefix-related.
pub open spec fn spec_self_conflict(p: Seq<&[u8]>) -> bool {
    exists|i: int, j: int|
        0 <= i < j < p.len() && #[trigger] prefix_related(p[i]@, p[j]@)
}

/// Returns `true` if `needle` is a byte-prefix of `haystack` (including equal length).
pub fn is_prefix(needle: &[u8], haystack: &[u8]) -> (r: bool)
    ensures
        r == spec_is_prefix(needle@, haystack@),
{
    if needle.len() > haystack.len() {
        return false;
    }
    let mut i: usize = 0;
    while i < needle.len()
        invariant
            needle.len() <= haystack.len(),
            i <= needle.len(),
            forall|k: int| 0 <= k < i ==> needle@[k] == haystack@[k],
        decreases needle.len() - i,
    {
        if needle[i] != haystack[i] {
            assert(haystack@.subrange(0, needle@.len() as int)[i as int] != needle@[i as int]);
            return false;
        }
        i += 1;
    }
    true
}

/// Returns `true` if any pattern in `a` is a prefix of any pattern in `b`,
/// or vice-versa.
pub fn slices_have_prefix_conflict(a: &[&[u8]], b: &[&[u8]]) -> (r: bool)
    ensures
        r == spec_slices_conflict(a@, b@),
{
    let mut i: usize = 0;
    while i < a.len()
        invariant
            i <= a.len(),
            forall|x: int, y: int|
                0 <= x < i && 0 <= y < b@.len() ==> !#[trigger] prefix_related(a@[x]@, b@[y]@),
        decreases a.len() - i,
    {
        let mut j: usize = 0;
        while j < b.len()
            invariant
                i < a.len(),
                j <= b.len(),
                forall|x: int, y: int|
                    0 <= x < i && 0 <= y < b@.len() ==> !#[trigger] prefix_related(a@[x]@, b@[y]@),
                forall|y: int| 0 <= y < j ==> !#[trigger] prefix_related(a@[i as int]@, b@[y]@),
            decreases b.len() - j,
        {
            if is_prefix(a[i], b[j]) || is_prefix(b[j], a[i]) {
                assert(prefix_related(a@[i as int]@, b@[j as int]@));
                return true;
            }
            j += 1;
        }
        i += 1;
    }
    false
}

/// Returns `true` if any two patterns within the same slice are prefix-related.
pub fn self_has_prefix_conflict(patterns: &[&[u8]]) -> (r: bool)
    ensures
        r == spec_self_conflict(patterns@),
{
    let mut i: usize = 0;
    while i < patterns.len()
        invariant
            i <= patterns.len(),
            forall|x: int, y: int|
                0 <= x < i && x < y < patterns@.len() ==> !#[trigger] prefix_related(
                    patterns@[x]@,
                    patterns@[y]@,
                ),
        decreases patterns.len() - i,
    {
        let mut j: usize = i + 1;
        while j < patterns.len()
            invariant
                i < patterns.len(),
                i + 1 <= j <= patterns.len(),
                forall|x: int, y: int|
                    0 <= x < i && x < y < patterns@.len() ==> !#[trigger] prefix_related(
                        patterns@[x]@,
                        patterns@[y]@,
                    ),
                forall|y: int|
                    i < y < j ==> !#[trigger] prefix_related(patterns@[i as int]@, patterns@[y]@),
            decreases patterns.len() - j,
        {
            if is_prefix(patterns[i], patterns[j]) || is_prefix(patterns[j], patterns[i]) {
                assert(prefix_related(patterns@[i as int]@, patterns@[j as int]@));
                return true;
            }
            j += 1;
        }
        i += 1;
    }
    false
}

/// Prefix conflict between two sets of patterns does not depend on which set
/// is named first.
pub proof fn lemma_conflict_symmetric(a: Seq<&[u8]>, b: Seq<&[u8]>)
    ensures
        spec_slices_conflict(a, b) == spec_slices_conflict(b, a),
{
    if spec_slices_conflict(a, b) {
        let (i, j) = choose|i: int, j: int|
            0 <= i < a.len() && 0 <= j < b.len() && #[trigger] prefix_related(a[i]@, b[j]@);
        assert(prefix_related(b[j]@, a[i]@));
    }
    if spec_slices_conflict(b, a) {
        let (j, i) = choose|j: int, i: int|
            0 <= j < b.len() && 0 <= i < a.len() && #[trigger] prefix_related(b[j]@, a[i]@);
        assert(prefix_related(a[i]@, b[j]@));
    }
}

/// Every non-empty pattern set conflicts with itself, since a pattern is a
/// prefix of itself: a type's own patterns are checked pairwise, by
/// `self_has_prefix_conflict`, and not as two sets.
pub proof fn lemma_nonempty_conflicts_with_itself(a: Seq<&[u8]>)
    requires
        a.len() > 0,
    ensures
        spec_slices_conflict(a, a),
{
    assert(spec_is_prefix(a[0]@, a[0]@));
    assert(prefix_related(a[0]@, a[0]@));
}

/// The magic patterns of DLT files: the storage header `DLT\x01`.
pub fn dlt_magic_bytes() -> (r: &'static [&'static [u8]])
    ensures
        r@.len() == 1,
        r@[0]@ == seq![0x44u8, 0x4c, 0x54, 0x01],
{
    &[&[0x44, 0x4c, 0x54, 0x01]]
}

/// The magic patterns of packet captures: classic pcap (little- and
/// big-endian, micro- and nanosecond) and the pcapng section header block.
pub fn pcap_magic_bytes() -> (r: &'static [&'static [u8]])
    ensures
        r@.len() == 5,
        r@[0]@ == seq![0xd4u8, 0xc3, 0xb2, 0xa1],
        r@[1]@ == seq![0xa1u8, 0xb2, 0xc3, 0xd4],
        r@[2]@ == seq![0x4du8, 0x3c, 0xb2, 0xa1],
        r@[3]@ == seq![0xa1u8, 0xb2, 0x3c, 0x4d],
        r@[4]@ == seq![0x0au8, 0x0d, 0x0d, 0x0a],
{
    &[
        &[0xd4, 0xc3, 0xb2, 0xa1],
        &[0xa1, 0xb2, 0xc3, 0xd4],
        &[0x4d, 0x3c, 0xb2, 0xa1],
        &[0xa1, 0xb2, 0x3c, 0x4d],
        &[0x0a, 0x0d, 0x0d, 0x0a],
    ]
}

/// Bytes a file header must have before magic-byte detection is tried.
pub const MIN_MAGIC_HEADER: usize = 4;

/// Some pattern of `table` is a prefix of `header`.
pub open spec fn table_matches(table: Seq<&[u8]>, header: Seq<u8>) -> bool {
    exists|i: int| 0 <= i < table.len() && #[trigger] spec_is_prefix(table[i]@, header)
}

/// The first table from index `k` on that matches `header`.
pub open spec fn first_match_from(tables: Seq<&[&[u8]]>, header: Seq<u8>, k: int) -> Option<int>
    decreases tables.len() - k,
{
    if k < 0 || k >= tables.len() {
        None
    } else if table_matches(tables[k]@, header) {
        Some(k)
    } else {
        first_match_from(tables, header, k + 1)
    }
}

/// The binary type (an index into the registration order) that magic-byte
/// detection picks for `header`: the first whose table has a pattern that
/// starts the header, and none for a header shorter than four bytes.
pub open spec fn detected_type(tables: Seq<&[&[u8]]>, header: Seq<u8>) -> Option<int> {
    if header.len() < MIN_MAGIC_HEADER {
        None
    } else {
        first_match_from(tables, header, 0)
    }
}

/// No two distinct tables hold prefix-related patterns.
pub open spec fn tables_unambiguous(tables: Seq<&[&[u8]]>) -> bool {
    forall|a: int, b: int|
        0 <= a < b < tables.len() ==> !#[trigger] spec_slices_conflict(tables[a]@, tables[b]@)
}

/// Whether some pattern of `table` starts `header`.
fn table_matches_exec(table: &[&[u8]], header: &[u8]) -> (r: bool)
    ensures
        r == table_matches(table@, header@),
{
    let mut i: usize = 0;
    while i < table.len()
        invariant
            i <= table@.len(),
            forall|x: int| 0 <= x < i ==> !#[trigger] spec_is_prefix(table@[x]@, header@),
        decreases table.len() - i,
    {
        if is_prefix(table[i], header) {
            return true;
        }
        i += 1;
    }
    false
}

/// Picks the binary file type of a file from its first bytes: the first
/// type, in registration order, one of whose magic patterns starts the
/// header. Headers shorter than four bytes are never binary.
pub fn detect_binary_type(header: &[u8], tables: &[&[&[u8]]]) -> (r: Option<usize>)
    ensures
        r matches Some(k) ==> detected_type(tables@, header@) == Some(k as int),
        r is None ==> detected_type(tables@, header@) is None,
{
    if header.len() < MIN_MAGIC_HEADER {
        return None;
    }
    let mut k: usize = 0;
    while k < tables.len()
        invariant
            k <= tables@.len(),
            header@.len() >= MIN_MAGIC_HEADER,
            detected_type(tables@, header@) == first_match_from(tables@, header@, k as int),
        decreases tables.len() - k,
    {
        if table_matches_exec(tables[k], header) {
            return Some(k);
        }
        k += 1;
    }
    None
}

/// Two patterns that both start the same header are prefix-related.
pub proof fn lemma_common_prefixes_related(p: Seq<u8>, q: Seq<u8>, header: Seq<u8>)
    requires
        spec_is_prefix(p, header),
        spec_is_prefix(q, header),
    ensures
        prefix_related(p, q),
{
    if p.len() <= q.len() {
        assert(q.subrange(0, p.len() as int) =~= p) by {
            assert forall|i: int| 0 <= i < p.len() implies q.subrange(0, p.len() as int)[i] == p[i] by {
                assert(header.subrange(0, q.len() as int)[i] == q[i]);
                assert(header.subrange(0, p.len() as int)[i] == p[i]);
            }
        }
    } else {
        assert(p.subrange(0, q.len() as int) =~= q) by {
            assert forall|i: int| 0 <= i < q.len() implies p.subrange(0, q.len() as int)[i] == q[i] by {
                assert(header.subrange(0, q.len() as int)[i] == q[i]);
                assert(header.subrange(0, p.len() as int)[i] == p[i]);
            }
        }
    }
}

/// When no two registered types have prefix-related magic patterns, no
/// header matches two types: magic-byte detection does not depend on the
/// order in which the types are registered.
pub proof fn lemma_detection_unambiguous(tables: Seq<&[&[u8]]>, header: Seq<u8>, a: int, b: int)
    requires
        tables_unambiguous(tables),
        0 <= a < tables.len(),
        0 <= b < tables.len(),
        a != b,
        table_matches(tables[a]@, header),
    ensures
        !table_matches(tables[b]@, header),
{
    if table_matches(tables[b]@, header) {
        let i = choose|i: int| 0 <= i < tables[a]@.len() && #[trigger] spec_is_prefix(tables[a]@[i]@, header);
        let j = choose|j: int| 0 <= j < tables[b]@.len() && #[trigger] spec_is_prefix(tables[b]@[j]@, header);
        lemma_common_prefixes_related(tables[a]@[i]@, tables[b]@[j]@, header);
        if a < b {
            assert(spec_slices_conflict(tables[a]@, tables[b]@));
        } else {
            assert(prefix_related(tables[b]@[j]@, tables[a]@[i]@));
            assert(spec_slices_conflict(tables[b]@, tables[a]@));
        }
    }
}

/// The type that detection picks has a pattern starting the header, and,
/// with unambiguous tables, no other type has one.
pub proof fn lemma_detected_type_is_only_match(tables: Seq<&[&[u8]]>, header: Seq<u8>)
    requires
        tables_unambiguous(tables),
        detected_type(tables, header) is Some,
    ensures
        ({
            let k = detected_type(tables, header)->0;
            &&& 0 <= k < tables.len()
            &&& table_matches(tables[k]@, header)
            &&& forall|j: int| 0 <= j < tables.len() && j != k ==> !table_matches(#[trigger] tables[j]@, header)
        }),
{
    lemma_first_match_found(tables, header, 0);
    let k = detected_type(tables, header)->0;
    assert forall|j: int| 0 <= j < tables.len() && j != k implies !table_matches(#[trigger] tables[j]@, header) by {
        lemma_detection_unambiguous(tables, header, k, j);
    }
}

proof fn lemma_first_match_found(tables: Seq<&[&[u8]]>, header: Seq<u8>, k: int)
    requires
        0 <= k,
    ensures
        first_match_from(tables, header, k) matches Some(m) ==> k <= m < tables.len() && table_matches(tables[m]@, header),
    decreases tables.len() - k,
{
    if k < tables.len() && !table_matches(tables[k]@, header) {
        lemma_first_match_found(tables, header, k + 1);
    }
}

} // verus!
