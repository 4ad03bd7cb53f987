//! The text formats of the SEC current-events feed: accession numbers in
//! entry links, filing directories, and the choice of a filing's XML
//! document; and the de-duplication of feed entries across poll cycles.
use std::time::Duration;
use vstd::hash_set::StringHashSet;
use vstd::prelude::*;
use vstd::utf8::{decode_utf8, encode_utf8, is_char_boundary, is_continuation_byte, valid_utf8};

use crate::durations::{duration_from_secs, seconds};

verus! {

broadcast use vstd::utf8::group_utf8_lib;

/// The byte `/`.
pub const SLASH: u8 = 0x2f;

/// The byte `-`.
pub const DASH: u8 = 0x2d;

/// Index of the last occurrence of byte `c` in `b`, or -1 when there is none.
pub open spec fn last_index_of(b: Seq<u8>, c: u8) -> int
    decreases b.len(),
{
    if b.len() == 0 {
        -1
    } else if b.last() == c {
        b.len() - 1
    } else {
        last_index_of(b.drop_last(), c)
    }
}

/// The last `/`-separated segment of a link (the whole link when it has no `/`).
pub open spec fn file_segment(b: Seq<u8>) -> Seq<u8> {
    b.skip(last_index_of(b, SLASH) + 1)
}

/// The part of a link before its last `/`, when it has one.
pub open spec fn dir_segment(b: Seq<u8>) -> Option<Seq<u8>> {
    if last_index_of(b, SLASH) >= 0 {
        Some(b.take(last_index_of(b, SLASH)))
    } else {
        None
    }
}

/// The bytes of `-index.htm`, the suffix of a filing's index page.
pub open spec fn index_suffix() -> Seq<u8> {
    seq![DASH, 0x69u8, 0x6eu8, 0x64u8, 0x65u8, 0x78u8, 0x2eu8, 0x68u8, 0x74u8, 0x6du8]
}

/// The undashed accession number that a link's last segment carries before
/// `-index.htm`, when it ends that way.
pub open spec fn accession_raw(b: Seq<u8>) -> Option<Seq<u8>> {
    let f = file_segment(b);
    if f.len() >= 10 && f.skip(f.len() - 10) == index_suffix() {
        Some(f.take(f.len() - 10))
    } else {
        None
    }
}

/// The dashed accession number of a link: the raw number split after its
/// 10th and 12th byte, e.g. `000032019324000007` -> `0000320193-24-000007`.
/// Raw numbers shorter than 18 bytes are not accession numbers.
pub open spec fn accession_of(b: Seq<u8>) -> Option<Seq<u8>> {
    match accession_raw(b) {
        Some(r) => if r.len() >= 18 {
            Some(r.take(10) + seq![DASH] + r.subrange(10, 12) + seq![DASH] + r.skip(12))
        } else {
            None
        },
        None => None,
    }
}

/// The raw number of a link can be cut after its 10th and 12th byte: both
/// positions start a character (always so for the ASCII digits of a real
/// accession number).
pub open spec fn accession_cuttable(b: Seq<u8>) -> bool {
    accession_raw(b) matches Some(r) ==> (r.len() >= 18 ==> is_char_boundary(r, 10) && is_char_boundary(r, 12))
}

/// UTF-8 encoding distributes over concatenation.
pub proof fn lemma_encode_concat(x: Seq<char>, y: Seq<char>)
    ensures
        encode_utf8(x + y) == encode_utf8(x) + encode_utf8(y),
    decreases x.len(),
{
    if x.len() == 0 {
        assert(x + y =~= y);
        assert(encode_utf8(x) =~= Seq::<u8>::empty());
        assert(encode_utf8(x) + encode_utf8(y) =~= encode_utf8(y));
    } else {
        lemma_encode_concat(x.drop_first(), y);
        assert((x + y).drop_first() =~= x.drop_first() + y);
        assert((x + y)[0] == x[0]);
        assert(encode_utf8(x + y) =~= encode_scalar_of(x[0]) + encode_utf8(x.drop_first() + y));
    }
}

spec fn encode_scalar_of(c: char) -> Seq<u8> {
    vstd::utf8::encode_scalar(c as u32)
}

proof fn lemma_last_index_step(b: Seq<u8>, c: u8, i: int)
    requires
        0 < i <= b.len(),
        b[i - 1] != c,
    ensures
        last_index_of(b.take(i), c) == last_index_of(b.take(i - 1), c),
{
    assert(b.take(i).drop_last() =~= b.take(i - 1));
}

proof fn lemma_last_index_bounds(b: Seq<u8>, c: u8)
    ensures
        -1 <= last_index_of(b, c) < b.len(),
        last_index_of(b, c) >= 0 ==> b[last_index_of(b, c)] == c,
    decreases b.len(),
{
    if b.len() > 0 && b.last() != c {
        lemma_last_index_bounds(b.drop_last(), c);
    }
}

/// Position just after the last `/` of `bytes` (0 when there is none).
fn after_last_slash(bytes: &[u8]) -> (start: usize)
    ensures
        start == last_index_of(bytes@, SLASH) + 1,
{
    let mut i: usize = bytes.len();
    assert(bytes@.take(i as int) =~= bytes@);
    while i > 0 && bytes[i - 1] != SLASH
        invariant
            i <= bytes@.len(),
            last_index_of(bytes@, SLASH) == last_index_of(bytes@.take(i as int), SLASH),
        decreases i,
    {
        proof {
            lemma_last_index_step(bytes@, SLASH, i as int);
        }
        i = i - 1;
    }
    if i > 0 {
        assert(bytes@.take(i as int).last() == SLASH);
    } else {
        assert(bytes@.take(0) =~= Seq::<u8>::empty());
    }
    i
}

proof fn lemma_dash_encoding()
    ensures
        encode_utf8("-"@) == seq![DASH],
{
    reveal_strlit("-");
    assert(45u32 & 0x7F == 45u32) by (bit_vector);
    let d = "-"@;
    assert(d.len() == 1);
    assert(d[0] == '-');
    assert(('-' as u32) == 45u32);
    assert(d.drop_first() =~= Seq::<char>::empty());
    assert(encode_utf8(d.drop_first()) =~= Seq::<u8>::empty());
    assert(vstd::utf8::encode_scalar(45u32) =~= seq![DASH]);
    assert(encode_utf8(d) =~= seq![DASH]);
}

/// Boundaries strictly inside a valid UTF-8 sequence survive cutting the
/// sequence before or after them.
proof fn lemma_boundary_in_part(b: Seq<u8>, lo: int, hi: int, i: int)
    requires
        valid_utf8(b),
        is_char_boundary(b, lo),
        is_char_boundary(b, hi),
        0 <= lo < i < hi <= b.len(),
        is_char_boundary(b, i),
    ensures
        valid_utf8(b.subrange(lo, hi)),
        is_char_boundary(b.subrange(lo, hi), i - lo),
{
    let tail = b.subrange(lo, b.len() as int);
    vstd::utf8::valid_utf8_split(b, lo);
    assert(valid_utf8(tail));
    assert(is_char_boundary(tail, hi - lo)) by {
        if hi < b.len() {
            vstd::utf8::is_char_boundary_iff_not_is_continuation_byte(b, hi);
            assert(tail[hi - lo] == b[hi]);
            vstd::utf8::is_char_boundary_iff_not_is_continuation_byte(tail, hi - lo);
        } else {
            vstd::utf8::is_char_boundary_start_end_of_seq(tail);
        }
    }
    vstd::utf8::is_char_boundary_iff_not_is_continuation_byte(b, i);
    let part = tail.subrange(0, hi - lo);
    assert(part =~= b.subrange(lo, hi));
    assert(valid_utf8(part));
    assert(!is_continuation_byte(b[i]));
    assert(part[i - lo] == b[i]);
}

/// The directory of a filing's index link: everything before its last `/`
/// (`None` when the link has no `/`).
pub fn filing_dir_url(href: &str) -> (dir: Option<String>)
    ensures
        dir is Some <==> dir_segment(encode_utf8(href@)) is Some,
        dir matches Some(d) ==> encode_utf8(d@) == dir_segment(encode_utf8(href@))->0,
{
    let bytes = href.as_bytes();
    let start: usize = after_last_slash(bytes);
    if start == 0 {
        return None;
    }
    proof {
        lemma_last_index_bounds(bytes@, SLASH);
        assert(!is_continuation_byte(bytes@[start - 1]));
    }
    let (d, _) = href.split_at(start - 1);
    let d = d.to_owned();
    assert(d.view() == d@);
    Some(d)
}

/// The undashed accession number of a link, as a slice of it.
fn raw_accession(href: &str) -> (raw: Option<&str>)
    ensures
        raw is Some <==> accession_raw(encode_utf8(href@)) is Some,
        raw matches Some(r) ==> encode_utf8(r@) == accession_raw(encode_utf8(href@))->0,
{
    let ghost hb = encode_utf8(href@);
    let bytes = href.as_bytes();
    let start: usize = after_last_slash(bytes);
    proof {
        lemma_last_index_bounds(bytes@, SLASH);
    }
    let file: &str = if start == 0 {
        assert(hb.skip(0) =~= hb);
        href
    } else {
        proof {
            assert(!is_continuation_byte(bytes@[start - 1]));
        }
        let (_, tail) = href.split_at(start - 1);
        proof {
            let tb = encode_utf8(tail@);
            assert(tb[0] == SLASH);
            assert(valid_utf8(tb));
            reveal_with_fuel(is_char_boundary, 2);
            assert(vstd::utf8::length_of_first_scalar(tb) == 1);
            assert(is_char_boundary(vstd::utf8::pop_first_scalar(tb), 0));
            assert(is_char_boundary(tb, 1));
        }
        let (_, f) = tail.split_at(1);
        assert(encode_utf8(f@) =~= hb.skip(start as int));
        f
    };
    let ghost fseg = file_segment(hb);
    assert(encode_utf8(file@) == fseg);
    let fb = file.as_bytes();
    let n: usize = fb.len();
    if n < 10 {
        return None;
    }
    let m: usize = n - 10;
    let suffix: [u8; 10] = [DASH, 0x69, 0x6e, 0x64, 0x65, 0x78, 0x2e, 0x68, 0x74, 0x6d];
    assert(suffix@ =~= index_suffix());
    let mut k: usize = 0;
    while k < 10
        invariant
            k <= 10,
            m + 10 == n,
            n == fb@.len(),
            fb@ == fseg,
            fseg == file_segment(hb),
            hb == encode_utf8(href@),
            suffix@ == index_suffix(),
            forall|j: int| 0 <= j < k ==> #[trigger] fb@[m + j] == suffix@[j],
        decreases 10 - k,
    {
        if fb[m + k] != suffix[k] {
            assert(fb@.skip(m as int)[k as int] != index_suffix()[k as int]);
            assert(fseg.skip(fseg.len() - 10) != index_suffix());
            assert(accession_raw(hb) is None);
            return None;
        }
        k = k + 1;
    }
    assert forall|j: int| 0 <= j < 10 implies fb@.skip(m as int)[j] == index_suffix()[j] by {
        assert(fb@[m + j] == suffix@[j]);
    }
    assert(fb@.skip(m as int) =~= index_suffix());
    proof {
        assert(fb@[m as int] == DASH);
        assert(!is_continuation_byte(fb@[m as int]));
    }
    let (raw, _) = file.split_at(m);
    let ghost rb = encode_utf8(raw@);
    assert(rb =~= fseg.take(m as int));
    assert(accession_raw(hb) == Some(rb));
    Some(raw)
}

/// Whether the raw number of a link can be cut where the dashes go (see
/// `accession_cuttable`).
pub fn is_accession_cuttable(href: &str) -> (ok: bool)
    ensures
        ok == accession_cuttable(encode_utf8(href@)),
{
    match raw_accession(href) {
        Some(raw) => raw.as_bytes().len() < 18 || (raw.is_char_boundary(10) && raw.is_char_boundary(12)),
        None => true,
    }
}

/// The accession number embedded in a current-events link. The link points
/// at a filing's `-index.htm` page whose name is the undashed accession
/// number, e.g. `.../000032019324000007-index.htm` -> `0000320193-24-000007`.
pub fn extract_accession(href: &str) -> (acc: Option<String>)
    requires
        accession_cuttable(encode_utf8(href@)),
    ensures
        acc is Some <==> accession_of(encode_utf8(href@)) is Some,
        acc matches Some(a) ==> encode_utf8(a@) == accession_of(encode_utf8(href@))->0,
{
    let raw = match raw_accession(href) {
        Some(r) => r,
        None => {
            return None;
        },
    };
    let ghost rb = encode_utf8(raw@);
    let rn: usize = raw.as_bytes().len();
    if rn < 18 {
        return None;
    }
    proof {
        lemma_boundary_in_part(rb, 0, rb.len() as int, 12);
        assert(rb.subrange(0, rb.len() as int) =~= rb);
    }
    let (ab, c) = raw.split_at(12);
    proof {
        lemma_boundary_in_part(rb, 0, 12, 10);
        assert(encode_utf8(ab@) =~= rb.subrange(0, 12));
    }
    let (a, b) = ab.split_at(10);
    let mut out = a.to_owned();
    out.append("-");
    out.append(b);
    out.append("-");
    out.append(c);
    proof {
        lemma_dash_encoding();
        let d = "-"@;
        lemma_encode_concat(a@, d);
        lemma_encode_concat(a@ + d, b@);
        lemma_encode_concat(a@ + d + b@, d);
        lemma_encode_concat(a@ + d + b@ + d, c@);
        assert(encode_utf8(a@) =~= rb.take(10));
        assert(encode_utf8(b@) =~= rb.subrange(10, 12));
        assert(encode_utf8(c@) =~= rb.skip(12));
        assert(encode_utf8(out@) =~= rb.take(10) + seq![DASH] + rb.subrange(10, 12) + seq![DASH] + rb.skip(12));
    }
    Some(out)
}

/// ASCII lower-casing of a byte; other bytes are left alone.
pub open spec fn ascii_lower(b: u8) -> u8 {
    if 0x41 <= b <= 0x5a {
        (b + 0x20) as u8
    } else {
        b
    }
}

/// Byte-wise equality up to ASCII case (as `str::eq_ignore_ascii_case`).
pub open spec fn eq_ignore_ascii_case(x: Seq<u8>, y: Seq<u8>) -> bool {
    x.len() == y.len() && forall|i: int| 0 <= i < x.len() ==> ascii_lower(#[trigger] x[i]) == ascii_lower(y[i])
}

/// Whether `x` ends with the bytes `suffix` (as `str::ends_with`).
pub open spec fn ends_with(x: Seq<u8>, suffix: Seq<u8>) -> bool {
    x.len() >= suffix.len() && x.skip(x.len() - suffix.len()) == suffix
}

/// The bytes of `primary_doc.xml`, the canonical Form 4 document name.
pub open spec fn primary_doc_name() -> Seq<u8> {
    seq![0x70u8, 0x72, 0x69, 0x6d, 0x61, 0x72, 0x79, 0x5f, 0x64, 0x6f, 0x63, 0x2e, 0x78, 0x6d, 0x6c]
}

/// The bytes of `FilingSummary.xml`, a filing's summary document.
pub open spec fn filing_summary_name() -> Seq<u8> {
    seq![0x46u8, 0x69, 0x6c, 0x69, 0x6e, 0x67, 0x53, 0x75, 0x6d, 0x6d, 0x61, 0x72, 0x79, 0x2e, 0x78, 0x6d, 0x6c]
}

/// The bytes of `.xml`.
pub open spec fn xml_extension() -> Seq<u8> {
    seq![0x2eu8, 0x78, 0x6d, 0x6c]
}

/// A name that is the canonical document, whatever its ASCII case.
pub open spec fn is_primary_doc(name: Seq<char>) -> bool {
    eq_ignore_ascii_case(encode_utf8(name), primary_doc_name())
}

/// Any other `.xml` document that is not the filing summary.
pub open spec fn is_other_xml_doc(name: Seq<char>) -> bool {
    ends_with(encode_utf8(name), xml_extension()) && !eq_ignore_ascii_case(encode_utf8(name), filing_summary_name())
}

/// Whether a name is a candidate of the given kind: the canonical document
/// (`primary`), or another XML document.
pub open spec fn doc_matches(name: Seq<char>, primary: bool) -> bool {
    if primary {
        is_primary_doc(name)
    } else {
        is_other_xml_doc(name)
    }
}

/// Index of the first name that is a candidate of the given kind.
pub open spec fn first_doc(names: Seq<Seq<char>>, primary: bool) -> Option<int>
    decreases names.len(),
{
    if names.len() == 0 {
        None
    } else if doc_matches(names[0], primary) {
        Some(0)
    } else {
        match first_doc(names.drop_first(), primary) {
            Some(i) => Some(i + 1),
            None => None,
        }
    }
}

/// The document of a filing directory to read: the canonical
/// `primary_doc.xml` when listed, else the first other `.xml` document that
/// is not the filing summary.
pub open spec fn chosen_document(names: Seq<Seq<char>>) -> Option<Seq<char>> {
    match first_doc(names, true) {
        Some(i) => Some(names[i]),
        None => match first_doc(names, false) {
            Some(i) => Some(names[i]),
            None => None,
        },
    }
}

proof fn lemma_first_doc(names: Seq<Seq<char>>, primary: bool, i: int)
    requires
        0 <= i <= names.len(),
        forall|j: int| 0 <= j < i ==> !doc_matches(#[trigger] names[j], primary),
    ensures
        i < names.len() && doc_matches(names[i], primary) ==> first_doc(names, primary) == Some(i),
        i == names.len() ==> first_doc(names, primary) is None,
    decreases i,
{
    if names.len() > 0 && i > 0 {
        let rest = names.drop_first();
        assert forall|j: int| 0 <= j < i - 1 implies !doc_matches(#[trigger] rest[j], primary) by {
            assert(rest[j] == names[j + 1]);
        }
        assert(!doc_matches(names[0], primary));
        lemma_first_doc(rest, primary, i - 1);
        if i < names.len() {
            assert(rest[i - 1] == names[i]);
        }
    }
}

proof fn lemma_first_doc_least(names: Seq<Seq<char>>, primary: bool)
    ensures
        first_doc(names, primary) matches Some(i) ==> 0 <= i < names.len() && doc_matches(names[i], primary)
            && forall|j: int| 0 <= j < i ==> !doc_matches(#[trigger] names[j], primary),
        first_doc(names, primary) is None ==> forall|j: int| 0 <= j < names.len() ==> !doc_matches(#[trigger] names[j], primary),
    decreases names.len(),
{
    if names.len() > 0 {
        let rest = names.drop_first();
        lemma_first_doc_least(rest, primary);
        assert forall|j: int| 0 < j < names.len() implies names[j] == rest[j - 1] by {}
        if !doc_matches(names[0], primary) {
            if let Some(i) = first_doc(rest, primary) {
                assert forall|j: int| 0 <= j < i + 1 implies !doc_matches(#[trigger] names[j], primary) by {
                    if j > 0 {
                        assert(names[j] == rest[j - 1]);
                    }
                }
            } else {
                assert forall|j: int| 0 <= j < names.len() implies !doc_matches(#[trigger] names[j], primary) by {
                    if j > 0 {
                        assert(names[j] == rest[j - 1]);
                    }
                }
            }
        }
    }
}

/// The document chosen from a listing: when some name is `primary_doc.xml`
/// (any ASCII case), the first such name; otherwise, when some name is
/// another `.xml` document that is not `FilingSummary.xml` (any ASCII case),
/// the first such name, wherever it stands in the listing; and nothing only
/// when no name is either.
pub proof fn lemma_chosen_document_law(names: Seq<Seq<char>>)
    ensures
        (exists|i: int| 0 <= i < names.len() && #[trigger] is_primary_doc(names[i])) ==> exists|i: int|
            0 <= i < names.len() && #[trigger] is_primary_doc(names[i]) && (forall|j: int|
                0 <= j < i ==> !is_primary_doc(#[trigger] names[j])) && chosen_document(names) == Some(names[i]),
        (forall|j: int| 0 <= j < names.len() ==> !is_primary_doc(#[trigger] names[j])) && (exists|i: int|
            0 <= i < names.len() && #[trigger] is_other_xml_doc(names[i])) ==> exists|i: int|
            0 <= i < names.len() && #[trigger] is_other_xml_doc(names[i]) && (forall|j: int|
                0 <= j < i ==> !is_other_xml_doc(#[trigger] names[j])) && chosen_document(names) == Some(names[i]),
        (forall|j: int| 0 <= j < names.len() ==> !is_primary_doc(#[trigger] names[j]) && !is_other_xml_doc(names[j]))
            ==> chosen_document(names) is None,
        chosen_document(names) matches Some(n) ==> exists|i: int|
            0 <= i < names.len() && #[trigger] names[i] == n && (is_primary_doc(n) || is_other_xml_doc(n)),
{
    lemma_first_doc_least(names, true);
    lemma_first_doc_least(names, false);
    if let Some(i) = first_doc(names, true) {
        assert(is_primary_doc(names[i]));
        assert(names[i] == names[i]);
    } else if let Some(i) = first_doc(names, false) {
        assert(is_other_xml_doc(names[i]));
        assert(names[i] == names[i]);
    } else {
        assert forall|i: int| 0 <= i < names.len() implies !#[trigger] is_primary_doc(names[i]) by {
            assert(!doc_matches(names[i], true));
        }
        assert forall|i: int| 0 <= i < names.len() implies !#[trigger] is_other_xml_doc(names[i]) by {
            assert(!doc_matches(names[i], false));
        }
    }
}

/// Byte-wise equality up to ASCII case.
fn bytes_eq_ignore_ascii_case(x: &[u8], y: &[u8]) -> (eq: bool)
    ensures
        eq == eq_ignore_ascii_case(x@, y@),
{
    if x.len() != y.len() {
        return false;
    }
    let mut i: usize = 0;
    while i < x.len()
        invariant
            i <= x@.len(),
            x@.len() == y@.len(),
            forall|j: int| 0 <= j < i ==> ascii_lower(#[trigger] x@[j]) == ascii_lower(y@[j]),
        decreases x@.len() - i,
    {
        let a: u8 = x[i];
        let b: u8 = y[i];
        let la: u8 = if 0x41 <= a && a <= 0x5a { a + 0x20 } else { a };
        let lb: u8 = if 0x41 <= b && b <= 0x5a { b + 0x20 } else { b };
        if la != lb {
            return false;
        }
        i = i + 1;
    }
    true
}

/// Whether `x` ends with `suffix`.
fn bytes_ends_with(x: &[u8], suffix: &[u8]) -> (yes: bool)
    ensures
        yes == ends_with(x@, suffix@),
{
    if x.len() < suffix.len() {
        return false;
    }
    let xl: usize = x.len();
    let off: usize = xl - suffix.len();
    let mut i: usize = 0;
    while i < suffix.len()
        invariant
            i <= suffix@.len(),
            xl == x@.len(),
            off + suffix@.len() == xl,
            forall|j: int| 0 <= j < i ==> #[trigger] x@[off + j] == suffix@[j],
        decreases suffix@.len() - i,
    {
        if x[off + i] != suffix[i] {
            assert(x@.skip(off as int)[i as int] != suffix@[i as int]);
            return false;
        }
        i = i + 1;
    }
    assert forall|j: int| 0 <= j < suffix@.len() implies x@.skip(off as int)[j] == suffix@[j] by {
        assert(x@[off + j] == suffix@[j]);
    }
    assert(x@.skip(off as int) =~= suffix@);
    true
}

/// Picks the XML document to read from a filing directory listing: the
/// canonical `primary_doc.xml` (any ASCII case) when listed, else the first
/// other `.xml` document that is not `FilingSummary.xml`.
pub fn choose_form4_document(names: &Vec<String>) -> (doc: Option<String>)
    ensures
        doc is Some <==> chosen_document(names@.map_values(|n: String| n@)) is Some,
        doc matches Some(d) ==> d@ == chosen_document(names@.map_values(|n: String| n@))->0,
        doc is None <==> forall|j: int|
            0 <= j < names@.len() ==> !is_primary_doc(#[trigger] names@[j]@) && !is_other_xml_doc(names@[j]@),
{
    let ghost views = names@.map_values(|n: String| n@);
    proof {
        lemma_chosen_document_law(views);
        assert forall|j: int| 0 <= j < names@.len() implies #[trigger] names@[j]@ == views[j] by {}
    }
    let primary: [u8; 15] = [0x70, 0x72, 0x69, 0x6d, 0x61, 0x72, 0x79, 0x5f, 0x64, 0x6f, 0x63, 0x2e, 0x78, 0x6d, 0x6c];
    let summary: [u8; 17] = [0x46, 0x69, 0x6c, 0x69, 0x6e, 0x67, 0x53, 0x75, 0x6d, 0x6d, 0x61, 0x72, 0x79, 0x2e, 0x78, 0x6d, 0x6c];
    let xml: [u8; 4] = [0x2e, 0x78, 0x6d, 0x6c];
    assert(primary@ =~= primary_doc_name());
    assert(summary@ =~= filing_summary_name());
    assert(xml@ =~= xml_extension());
    let mut i: usize = 0;
    while i < names.len()
        invariant
            i <= names@.len(),
            views == names@.map_values(|n: String| n@),
            primary@ == primary_doc_name(),
            forall|j: int| 0 <= j < i ==> !doc_matches(#[trigger] views[j], true),
        decreases names@.len() - i,
    {
        let name = names[i].as_str();
        assert(views[i as int] == name@);
        if bytes_eq_ignore_ascii_case(name.as_bytes(), &primary) {
            proof {
                lemma_first_doc(views, true, i as int);
            }
            return Some(names[i].clone());
        }
        i = i + 1;
    }
    proof {
        lemma_first_doc(views, true, i as int);
    }
    let mut i: usize = 0;
    while i < names.len()
        invariant
            i <= names@.len(),
            views == names@.map_values(|n: String| n@),
            summary@ == filing_summary_name(),
            xml@ == xml_extension(),
            first_doc(views, true) is None,
            forall|j: int| 0 <= j < i ==> !doc_matches(#[trigger] views[j], false),
        decreases names@.len() - i,
    {
        let name = names[i].as_str();
        assert(views[i as int] == name@);
        let bytes = name.as_bytes();
        if bytes_ends_with(bytes, &xml) && !bytes_eq_ignore_ascii_case(bytes, &summary) {
            proof {
                lemma_first_doc(views, false, i as int);
            }
            return Some(names[i].clone());
        }
        i = i + 1;
    }
    proof {
        lemma_first_doc(views, false, i as int);
    }
    None
}

/// A link with a `/` is its directory, the `/`, and its last segment.
pub proof fn lemma_link_split(b: Seq<u8>)
    ensures
        dir_segment(b) matches Some(d) ==> d + seq![SLASH] + file_segment(b) == b,
        dir_segment(b) is None ==> file_segment(b) == b,
{
    lemma_last_index_bounds(b, SLASH);
    let l: int = last_index_of(b, SLASH);
    if l >= 0 {
        assert(b.take(l) + seq![SLASH] + b.skip(l + 1) =~= b);
    } else {
        assert(b.skip(0) =~= b);
    }
}

/// An accession number is its raw number with exactly two dashes put in,
/// after the 10th and the 12th byte: 20 bytes or more, dashes at 10 and 13.
pub proof fn lemma_accession_shape(b: Seq<u8>)
    ensures
        accession_of(b) matches Some(a) ==> {
            &&& accession_raw(b) matches Some(r)
            &&& a.len() == r.len() + 2
            &&& a.len() >= 20
            &&& a[10] == DASH
            &&& a[13] == DASH
            &&& a.take(10) + a.subrange(11, 13) + a.skip(14) == r
        },
{
    if let Some(a) = accession_of(b) {
        let r = accession_raw(b)->0;
        assert(a.take(10) + a.subrange(11, 13) + a.skip(14) =~= r);
    }
}

/// Settings of the SEC feed poller.
#[derive(Debug, Clone)]
pub struct PollerConfig {
    /// SEC requires a descriptive UA: "AppName/Version (contact@email)".
    /// Set this to something real before running against the live feed.
    pub user_agent: String,
    pub poll_interval: Duration,
    pub max_concurrent_fetches: usize,
}

impl Default for PollerConfig {
    fn default() -> (cfg: Self)
        ensures
            cfg.user_agent@ == "insider-trade-tracker/0.1 (set-your-contact@example.com)"@,
            cfg.poll_interval == seconds(3),
            cfg.max_concurrent_fetches == 8,
    {
        PollerConfig {
            user_agent: "insider-trade-tracker/0.1 (set-your-contact@example.com)".to_owned(),
            poll_interval: duration_from_secs(3),
            max_concurrent_fetches: 8,
        }
    }
}

/// How many accession numbers the poller remembers before it forgets them
/// all, so that a long-running process does not grow without bound.
pub const SEEN_CAP: usize = 50_000;

/// The accession number of a link, as text.
pub open spec fn accession_key(b: Seq<u8>) -> Option<Seq<char>> {
    match accession_of(b) {
        Some(a) => Some(decode_utf8(a)),
        None => None,
    }
}

/// One feed entry through the de-duplicator: the set of remembered
/// accession numbers afterwards, and the accession number handed on for
/// fetching (only one not remembered before).
pub open spec fn dedup_step(seen: Set<Seq<char>>, href: Seq<u8>) -> (Set<Seq<char>>, Option<Seq<char>>) {
    match accession_key(href) {
        Some(k) => if seen.contains(k) {
            (seen, None)
        } else {
            (seen.insert(k), Some(k))
        },
        None => (seen, None),
    }
}

/// De-duplication of feed entries across poll cycles: each accession number
/// is handed on at most once until the memory is cleared at the cap.
pub struct FeedDedup {
    seen: StringHashSet,
}

impl FeedDedup {
    /// The accession numbers remembered so far.
    pub closed spec fn seen(&self) -> Set<Seq<char>> {
        self.seen@
    }

    /// A de-duplicator that remembers nothing yet.
    pub fn new() -> (d: Self)
        ensures
            d.seen() == Set::<Seq<char>>::empty(),
    {
        FeedDedup { seen: StringHashSet::new() }
    }

    /// Number of accession numbers remembered.
    pub fn seen_count(&self) -> (n: usize)
        ensures
            n == self.seen().len(),
    {
        self.seen.len()
    }

    /// Takes one feed entry link: yields its accession number when the link
    /// carries one that has not been seen, and remembers it.
    pub fn accept_link(&mut self, href: &str) -> (acc: Option<String>)
        requires
            accession_cuttable(encode_utf8(href@)),
        ensures
            final(self).seen() == dedup_step(old(self).seen(), encode_utf8(href@)).0,
            acc is Some <==> dedup_step(old(self).seen(), encode_utf8(href@)).1 is Some,
            acc matches Some(a) ==> a@ == dedup_step(old(self).seen(), encode_utf8(href@)).1->0,
    {
        let acc = match extract_accession(href) {
            Some(a) => a,
            None => {
                return None;
            },
        };
        proof {
            vstd::utf8::encode_utf8_decode_utf8(acc@);
        }
        if self.seen.contains(acc.as_str()) {
            return None;
        }
        self.seen.insert(acc.clone());
        Some(acc)
    }

    /// Ends a poll cycle: once more than `SEEN_CAP` accession numbers are
    /// remembered, forgets them all. Returns whether it did.
    pub fn end_cycle(&mut self) -> (cleared: bool)
        ensures
            cleared == (old(self).seen().len() > SEEN_CAP),
            final(self).seen().len() <= SEEN_CAP,
            cleared ==> final(self).seen() == Set::<Seq<char>>::empty(),
            !cleared ==> final(self).seen() == old(self).seen(),
    {
        if self.seen.len() > SEEN_CAP {
            self.seen.clear();
            true
        } else {
            false
        }
    }
}

/// A link whose accession number was handed on is not handed on again while
/// the memory lasts: any later link with the same accession number is
/// dropped.
pub proof fn lemma_accepted_once(seen: Set<Seq<char>>, first: Seq<u8>, later: Seq<u8>)
    requires
        dedup_step(seen, first).1 is Some,
        accession_key(later) == accession_key(first),
    ensures
        dedup_step(dedup_step(seen, first).0, later).1 is None,
        dedup_step(dedup_step(seen, first).0, later).0 == dedup_step(seen, first).0,
{
}

/// A run of feed entry links through the de-duplicator, without a cycle
/// end in between: the remembered set afterwards, and the accession numbers
/// handed on for fetching, in order.
pub open spec fn dedup_run(seen: Set<Seq<char>>, hrefs: Seq<Seq<u8>>) -> (Set<Seq<char>>, Seq<Seq<char>>)
    decreases hrefs.len(),
{
    if hrefs.len() == 0 {
        (seen, Seq::empty())
    } else {
        let before = dedup_run(seen, hrefs.drop_last());
        let step = dedup_step(before.0, hrefs.last());
        match step.1 {
            Some(k) => (step.0, before.1.push(k)),
            None => (step.0, before.1),
        }
    }
}

/// Within a poll run, each accession number is handed on for fetching at
/// most once, never one remembered before the run, and only one that some
/// link of the run carries; links without an accession number are never
/// handed on. Everything handed on is remembered afterwards.
pub proof fn lemma_dedup_run(seen: Set<Seq<char>>, hrefs: Seq<Seq<u8>>)
    ensures
        dedup_run(seen, hrefs).1.no_duplicates(),
        forall|i: int| 0 <= i < dedup_run(seen, hrefs).1.len() ==> !seen.contains(#[trigger] dedup_run(seen, hrefs).1[i]),
        forall|i: int| #![trigger dedup_run(seen, hrefs).1[i]] 0 <= i < dedup_run(seen, hrefs).1.len() ==> exists|j: int|
            0 <= j < hrefs.len() && accession_key(#[trigger] hrefs[j]) == Some(dedup_run(seen, hrefs).1[i]),
        forall|k: Seq<char>| #[trigger] dedup_run(seen, hrefs).0.contains(k) <==> (seen.contains(k) || dedup_run(seen, hrefs).1.contains(k)),
    decreases hrefs.len(),
{
    if hrefs.len() > 0 {
        let prev = hrefs.drop_last();
        lemma_dedup_run(seen, prev);
        let before = dedup_run(seen, prev);
        let step = dedup_step(before.0, hrefs.last());
        let out = dedup_run(seen, hrefs).1;
        assert forall|i: int| #![trigger before.1[i]] 0 <= i < before.1.len() implies exists|j: int|
            0 <= j < hrefs.len() && accession_key(#[trigger] hrefs[j]) == Some(before.1[i]) by {
            let j = choose|j: int| 0 <= j < prev.len() && accession_key(#[trigger] prev[j]) == Some(before.1[i]);
            assert(hrefs[j] == prev[j]);
        }
        if let Some(k) = step.1 {
            assert(!before.0.contains(k));
            assert(out == before.1.push(k));
            assert(accession_key(hrefs[hrefs.len() - 1]) == Some(k));
            assert forall|i: int| #![trigger out[i]] 0 <= i < out.len() implies exists|j: int|
                0 <= j < hrefs.len() && accession_key(#[trigger] hrefs[j]) == Some(out[i]) by {
                if i < before.1.len() {
                    assert(out[i] == before.1[i]);
                } else {
                    assert(accession_key(hrefs[hrefs.len() - 1]) == Some(out[i]));
                }
            }
            assert forall|a: int, b: int| 0 <= a < out.len() && 0 <= b < out.len() && a != b implies out[a] != out[b] by {
                if a < before.1.len() && b < before.1.len() {
                } else if a < before.1.len() {
                    assert(before.1.contains(out[a]));
                } else {
                    assert(before.1.contains(out[b]));
                }
            }
            assert forall|kk: Seq<char>| #[trigger] dedup_run(seen, hrefs).0.contains(kk) <==> (seen.contains(kk) || out.contains(kk)) by {
                if out.contains(kk) && kk != k {
                    let i = choose|i: int| 0 <= i < out.len() && out[i] == kk;
                    assert(before.1.contains(kk));
                }
                if before.1.contains(kk) {
                    let i = choose|i: int| 0 <= i < before.1.len() && before.1[i] == kk;
                    assert(out[i] == kk);
                }
                if kk == k {
                    assert(out[out.len() - 1] == k);
                }
            }
        }
    }
}

} // verus!
