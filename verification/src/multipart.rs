//! Multipart form bodies: finding and rewriting one text field.

use vstd::prelude::*;
use vstd::slice::slice_subrange;
use vstd::utf8::{decode_utf8, encode_utf8, valid_utf8};
use crate::json::option_text;
use crate::text::{
    all_space, bytes_at, cat, cat3, char_views, chars_at, chars_of, contains, ends_with, find,
    find_subslice, join, law_trim, lemma_find_from, lemma_find_is, lemma_join_cons,
    lemma_join_split_by, lemma_split_by_nonempty, occurs_at, split, split_by, split_chars,
    starts_with, string_of, tight, trim, trimmed,
};

verus! {

// ── Bytes ───────────────────────────────────────────────────────────────────

/// The text that bytes stand for; what is no UTF-8 is replaced.
pub uninterp spec fn lossy_text(bytes: Seq<u8>) -> Seq<char>;

/// Calls `String::from_utf8_lossy`. The result is a function of the bytes, and
/// is called `lossy_text`. Bytes that are UTF-8 are decoded; nothing is said of
/// others.
#[verifier::external_body]
pub(crate) fn decode_lossy(bytes: &[u8]) -> (r: String)
    ensures
        r@ == lossy_text(bytes@),
        valid_utf8(bytes@) ==> r@ == decode_utf8(bytes@),
{
    String::from_utf8_lossy(bytes).into_owned()
}

/// The text of a content: its characters where it is UTF-8; what is not is
/// replaced.
pub open spec fn content_text(bytes: Seq<u8>) -> Seq<char> {
    if valid_utf8(bytes) {
        decode_utf8(bytes)
    } else {
        lossy_text(bytes)
    }
}

/// A line end.
pub open spec fn crlf() -> Seq<u8> {
    seq![13u8, 10u8]
}

/// A line end and an empty line.
pub open spec fn blank_line() -> Seq<u8> {
    seq![13u8, 10u8, 13u8, 10u8]
}

/// Two hyphens.
pub open spec fn hyphens() -> Seq<u8> {
    seq![45u8, 45u8]
}

/// Vectors of bytes as sequences.
pub open spec fn byte_views(v: Seq<Vec<u8>>) -> Seq<Seq<u8>> {
    v.map_values(|x: Vec<u8>| x@)
}

/// Copies a slice.
pub fn copy_bytes(v: &[u8]) -> (r: Vec<u8>)
    ensures
        r@ == v@,
{
    let mut out: Vec<u8> = Vec::new();
    append_bytes(&mut out, v);
    assert(out@ =~= v@);
    out
}

/// Appends a slice to a vector.
pub fn append_bytes(out: &mut Vec<u8>, more: &[u8])
    ensures
        final(out)@ == old(out)@ + more@,
{
    let ghost start = out@;
    assert(start + more@.take(0) =~= start);
    for i in 0..more.len()
        invariant
            out@ == start + more@.take(i as int),
    {
        out.push(more[i]);
        assert(start + more@.take(i + 1) =~= (start + more@.take(i as int)).push(more@[i as int]));
    }
    assert(more@.take(more@.len() as int) =~= more@);
}

/// Splits at every occurrence of `pat`.
pub fn split_bytes_by(s: &[u8], pat: &[u8]) -> (r: Vec<Vec<u8>>)
    requires
        pat@.len() > 0,
    ensures
        byte_views(r@) == split_by(s@, pat@),
{
    let mut out: Vec<Vec<u8>> = Vec::new();
    let mut at: usize = 0;
    let n: usize = s.len();
    assert(s@.skip(0) =~= s@);
    assert(byte_views(out@) + split_by(s@, pat@) =~= split_by(s@, pat@));
    loop
        invariant
            n == s@.len(),
            at <= n,
            pat@.len() > 0,
            byte_views(out@) + split_by(s@.skip(at as int), pat@) == split_by(s@, pat@),
        decreases n - at,
    {
        let rest = slice_subrange(s, at, n);
        assert(rest@ =~= s@.skip(at as int));
        let ghost before = out@;
        match find_subslice(rest, pat) {
            Some(p) => {
                let piece = slice_subrange(rest, 0, p);
                out.push(copy_bytes(piece));
                assert(piece@ =~= rest@.take(p as int));
                assert(rest@.skip(p + pat@.len()) =~= s@.skip(at + p + pat@.len()));
                assert(byte_views(out@) + split_by(s@.skip(at + p + pat@.len()), pat@)
                    =~= byte_views(before) + (seq![rest@.take(p as int)] + split_by(
                    s@.skip(at + p + pat@.len()),
                    pat@,
                )));
                at = at + p + pat.len();
            },
            None => {
                out.push(copy_bytes(rest));
                assert(byte_views(out@) =~= byte_views(before) + seq![rest@]);
                return out;
            },
        }
    }
}

// ── The boundary ────────────────────────────────────────────────────────────

/// A text without the quotes at its ends.
pub open spec fn without_quotes(s: Seq<char>) -> Seq<char>
    decreases s.len(),
{
    if s.len() > 0 && s[0] == '"' {
        without_quotes(s.drop_first())
    } else if s.len() > 0 && s.last() == '"' {
        without_quotes(s.drop_last())
    } else {
        s
    }
}

/// The boundary that one parameter of a content type names.
pub open spec fn boundary_param(part: Seq<char>) -> Option<Seq<char>> {
    let p = trim(part);
    if starts_with(p, "boundary="@) && without_quotes(
        p.skip("boundary="@.len() as int),
    ).len() > 0 {
        Some(without_quotes(p.skip("boundary="@.len() as int)))
    } else {
        None
    }
}

/// The first boundary among parameters.
pub open spec fn first_boundary(parts: Seq<Seq<char>>) -> Option<Seq<char>>
    decreases parts.len(),
{
    if parts.len() == 0 {
        None
    } else {
        match first_boundary(parts.drop_last()) {
            Some(b) => Some(b),
            None => boundary_param(parts.last()),
        }
    }
}

fn strip_quotes(s: &[char]) -> (r: &[char])
    ensures
        r@ == without_quotes(s@),
    decreases s@.len(),
{
    let n: usize = s.len();
    if n > 0 && s[0] == '"' {
        let rest = slice_subrange(s, 1, n);
        assert(rest@ =~= s@.drop_first());
        strip_quotes(rest)
    } else if n > 0 && s[n - 1] == '"' {
        let rest = slice_subrange(s, 0, n - 1);
        assert(rest@ =~= s@.drop_last());
        strip_quotes(rest)
    } else {
        s
    }
}

/// Extracts the `boundary` parameter from the content type of a form.
pub fn multipart_boundary(content_type: &str) -> (r: Option<String>)
    ensures
        option_text(r) == first_boundary(split(content_type@, ';')),
{
    let text = chars_of(content_type);
    let parts = split_chars(text.as_slice(), ';');
    let key = chars_of("boundary=");
    let ghost all = split(content_type@, ';');
    let mut found: Option<String> = None;
    assert(all.take(0) =~= Seq::<Seq<char>>::empty());
    for i in 0..parts.len()
        invariant
            all == char_views(parts@),
            key@ == "boundary="@,
            option_text(found) == first_boundary(all.take(i as int)),
    {
        proof {
            assert(all.take(i + 1).drop_last() =~= all.take(i as int));
            assert(all.take(i + 1).last() == parts@[i as int]@);
        }
        if found.is_none() {
            let part = trimmed(parts[i].as_slice());
            if chars_at(part, key.as_slice(), 0) {
                let rest = slice_subrange(part, key.len(), part.len());
                assert(rest@ =~= part@.skip(key@.len() as int));
                let b = strip_quotes(rest);
                if b.len() > 0 {
                    found = Some(string_of(b));
                }
            }
        }
    }
    assert(all.take(all.len() as int) =~= all);
    found
}

// ── Fields ──────────────────────────────────────────────────────────────────

/// What stands between the parts of a form.
pub open spec fn delimiter(boundary: Seq<char>) -> Seq<u8> {
    encode_utf8("--"@ + boundary)
}

/// The parameter by which the headers of a part name its field.
pub open spec fn field_mark(field: Seq<char>) -> Seq<u8> {
    encode_utf8("name=\""@ + field + "\""@)
}

/// A byte that can stand before a parameter: a tab, a line end, a space or a
/// semicolon.
pub open spec fn sets_apart(b: u8) -> bool {
    b == 9 || b == 10 || b == 13 || b == 32 || b == 59
}

/// A mark stands at a place as a parameter of its own, not as the end of a
/// longer one such as `filename="model"`.
pub open spec fn marks_at(headers: Seq<u8>, mark: Seq<u8>, i: int) -> bool {
    occurs_at(headers, mark, i) && (i == 0 || sets_apart(headers[i - 1]))
}

/// Headers hold a mark.
pub open spec fn holds(headers: Seq<u8>, mark: Seq<u8>) -> bool {
    exists|i: int| #[trigger] marks_at(headers, mark, i)
}

/// A part without the line end that it begins with.
pub open spec fn after_line_end(part: Seq<u8>) -> Seq<u8> {
    if starts_with(part, crlf()) {
        part.skip(2)
    } else {
        part
    }
}

/// A content without the line end that it ends with.
pub open spec fn before_line_end(content: Seq<u8>) -> Seq<u8> {
    if ends_with(content, crlf()) {
        content.take(content.len() - 2)
    } else {
        content
    }
}

/// The content of a part, if its headers hold the mark.
pub open spec fn marked_content(part: Seq<u8>, mark: Seq<u8>) -> Option<Seq<u8>> {
    let p = after_line_end(part);
    if starts_with(p, hyphens()) {
        None
    } else {
        match find(p, blank_line()) {
            Some(h) => if holds(p.take(h), mark) {
                Some(before_line_end(p.skip(h + 4)))
            } else {
                None
            },
            None => None,
        }
    }
}

/// The content of the first part whose headers hold the mark.
pub open spec fn first_marked(parts: Seq<Seq<u8>>, mark: Seq<u8>) -> Option<Seq<u8>>
    decreases parts.len(),
{
    if parts.len() == 0 {
        None
    } else {
        match first_marked(parts.drop_last(), mark) {
            Some(c) => Some(c),
            None => marked_content(parts.last(), mark),
        }
    }
}

/// The content of a field of a form. What stands before the first delimiter
/// is no part.
pub open spec fn field_content(body: Seq<u8>, boundary: Seq<char>, field: Seq<char>) -> Option<
    Seq<u8>,
> {
    first_marked(split_by(body, delimiter(boundary)).drop_first(), field_mark(field))
}

/// The bytes of a text, with its length tied to it.
fn bytes_of(s: &str) -> (r: Vec<u8>)
    ensures
        r@ == encode_utf8(s@),
{
    copy_bytes(s.as_bytes())
}

/// A text that begins with an ASCII character is encoded to something.
proof fn lemma_encoded_nonempty(s: Seq<char>)
    requires
        s.len() > 0,
    ensures
        encode_utf8(s).len() > 0,
{
    vstd::utf8::encode_utf8_first_scalar(s);
}

fn crlf_bytes() -> (r: Vec<u8>)
    ensures
        r@ == crlf(),
{
    let mut v: Vec<u8> = Vec::new();
    v.push(13);
    v.push(10);
    assert(v@ =~= crlf());
    v
}

fn blank_bytes() -> (r: Vec<u8>)
    ensures
        r@ == blank_line(),
{
    let mut v: Vec<u8> = Vec::new();
    v.push(13);
    v.push(10);
    v.push(13);
    v.push(10);
    assert(v@ =~= blank_line());
    v
}

fn delimiter_bytes(boundary: &str) -> (r: Vec<u8>)
    ensures
        r@ == delimiter(boundary@),
        r@.len() > 0,
{
    let text = cat("--", boundary);
    proof {
        reveal_strlit("--");
        lemma_encoded_nonempty(text@);
    }
    bytes_of(text.as_str())
}

fn mark_bytes(field: &str) -> (r: Vec<u8>)
    ensures
        r@ == field_mark(field@),
        r@.len() > 0,
{
    let text = cat3("name=\"", field, "\"");
    proof {
        reveal_strlit("name=\"");
        lemma_encoded_nonempty(text@);
    }
    bytes_of(text.as_str())
}

/// Tells whether headers hold a mark.
fn headers_hold(headers: &[u8], mark: &[u8]) -> (r: bool)
    requires
        mark@.len() > 0,
    ensures
        r == holds(headers@, mark@),
{
    for i in 0..headers.len()
        invariant
            forall|j: int| j < i ==> !marks_at(headers@, mark@, j),
    {
        if bytes_at(headers, mark, i) {
            if i == 0 {
                assert(marks_at(headers@, mark@, 0));
                return true;
            }
            let b: u8 = headers[i - 1];
            if b == 9 || b == 10 || b == 13 || b == 32 || b == 59 {
                assert(marks_at(headers@, mark@, i as int));
                return true;
            }
        }
    }
    false
}

fn content_of_part(part: &[u8], mark: &[u8]) -> (r: Option<Vec<u8>>)
    requires
        mark@.len() > 0,
    ensures
        r is Some <==> marked_content(part@, mark@) is Some,
        r matches Some(c) ==> marked_content(part@, mark@) == Some(c@),
{
    let end = crlf_bytes();
    let blank = blank_bytes();
    let n: usize = part.len();
    let p = if bytes_at(part, end.as_slice(), 0) {
        slice_subrange(part, 2, n)
    } else {
        part
    };
    assert(p@ =~= after_line_end(part@));
    let mut two: Vec<u8> = Vec::new();
    two.push(45);
    two.push(45);
    assert(two@ =~= hyphens());
    if bytes_at(p, two.as_slice(), 0) {
        return None;
    }
    match find_subslice(p, blank.as_slice()) {
        Some(h) => {
            let headers = slice_subrange(p, 0, h);
            assert(headers@ =~= p@.take(h as int));
            if !headers_hold(headers, mark) {
                return None;
            }
            let content = slice_subrange(p, h + 4, p.len());
            assert(content@ =~= p@.skip(h + 4));
            let m: usize = content.len();
            if m >= 2 && bytes_at(content, end.as_slice(), m - 2) {
                let cut = slice_subrange(content, 0, m - 2);
                assert(cut@ =~= content@.take(m - 2));
                Some(copy_bytes(cut))
            } else {
                Some(copy_bytes(content))
            }
        },
        None => None,
    }
}

/// Finds a named text field in a multipart body: the content of the first part
/// whose headers carry the parameter `name="<field>"`.
pub fn extract_multipart_field(body: &[u8], boundary: &str, field: &str) -> (r: Option<String>)
    ensures
        r is Some <==> field_content(body@, boundary@, field@) is Some,
        r matches Some(t) ==> t@ == content_text(field_content(body@, boundary@, field@)->0),
{
    let delim = delimiter_bytes(boundary);
    let mark = mark_bytes(field);
    let parts = split_bytes_by(body, delim.as_slice());
    let ghost all = split_by(body@, delim@);
    let ghost rest = all.drop_first();
    proof {
        lemma_split_by_nonempty(body@, delim@);
    }
    let mut found: Option<Vec<u8>> = None;
    assert(rest.take(0) =~= Seq::<Seq<u8>>::empty());
    for i in 1..parts.len()
        invariant
            all == byte_views(parts@),
            rest == all.drop_first(),
            mark@.len() > 0,
            found is Some <==> first_marked(rest.take(i - 1), mark@) is Some,
            found matches Some(c) ==> first_marked(rest.take(i - 1), mark@) == Some(c@),
    {
        proof {
            assert(rest.take(i as int).drop_last() =~= rest.take(i - 1));
            assert(rest.take(i as int).last() == parts@[i as int]@);
        }
        if found.is_none() {
            found = content_of_part(parts[i].as_slice(), mark.as_slice());
        }
    }
    assert(rest.take(rest.len() as int) =~= rest);
    match found {
        Some(c) => Some(decode_lossy(c.as_slice())),
        None => None,
    }
}

// ── Rewriting ───────────────────────────────────────────────────────────────

/// The headers of a segment hold the mark.
pub open spec fn carries(segment: Seq<u8>, mark: Seq<u8>) -> bool {
    find(segment, blank_line()) matches Some(h) && holds(segment.take(h), mark)
}

/// A segment between delimiters; if its headers hold the mark, its content is
/// the new value.
pub open spec fn new_segment(segment: Seq<u8>, mark: Seq<u8>, value: Seq<u8>) -> Seq<u8> {
    if carries(segment, mark) {
        segment.take(find(segment, blank_line())->0 + 4) + value + crlf()
    } else {
        segment
    }
}

/// All segments, with the new value in those whose headers hold the mark.
pub open spec fn new_segments(segments: Seq<Seq<u8>>, mark: Seq<u8>, value: Seq<u8>) -> Seq<Seq<u8>> {
    segments.map_values(|s: Seq<u8>| new_segment(s, mark, value))
}

/// A body with a new value for a field; everything else stays as it is.
pub open spec fn rewritten(
    body: Seq<u8>,
    boundary: Seq<char>,
    field: Seq<char>,
    value: Seq<char>,
) -> Seq<u8> {
    join(
        new_segments(
            split_by(body, delimiter(boundary)),
            field_mark(field),
            encode_utf8(value),
        ),
        delimiter(boundary),
    )
}

fn rewrite_segment(out: &mut Vec<u8>, segment: &[u8], mark: &[u8], value: &[u8])
    requires
        mark@.len() > 0,
    ensures
        final(out)@ == old(out)@ + new_segment(segment@, mark@, value@),
{
    let blank = blank_bytes();
    let end = crlf_bytes();
    let ghost before = out@;
    let n: usize = segment.len();
    if let Some(h) = find_subslice(segment, blank.as_slice()) {
        assert(h + 4 <= n);
        let headers = slice_subrange(segment, 0, h);
        assert(headers@ =~= segment@.take(h as int));
        if headers_hold(headers, mark) {
            let head = slice_subrange(segment, 0, h + 4);
            assert(head@ =~= segment@.take(h + 4));
            append_bytes(out, head);
            append_bytes(out, value);
            append_bytes(out, end.as_slice());
            assert(out@ =~= before + (head@ + value@ + end@));
            return;
        }
    }
    append_bytes(out, segment);
}

/// Rewrites the value of a named text field inside a multipart body, keeping
/// every other part byte-identical.
pub fn rewrite_multipart_field(body: &[u8], boundary: &str, field: &str, value: &str) -> (r: Vec<u8>)
    ensures
        r@ == rewritten(body@, boundary@, field@, value@),
{
    let delim = delimiter_bytes(boundary);
    let mark = mark_bytes(field);
    let bytes = bytes_of(value);
    let parts = split_bytes_by(body, delim.as_slice());
    let ghost all = new_segments(split_by(body@, delim@), mark@, bytes@);
    let mut out: Vec<u8> = Vec::new();
    assert(all.take(0) =~= Seq::<Seq<u8>>::empty());
    for i in 0..parts.len()
        invariant
            all == new_segments(byte_views(parts@), mark@, bytes@),
            mark@.len() > 0,
            out@ == join(all.take(i as int), delim@),
    {
        if i > 0 {
            append_bytes(&mut out, delim.as_slice());
        }
        let ghost mid = out@;
        rewrite_segment(&mut out, parts[i].as_slice(), mark.as_slice(), bytes.as_slice());
        proof {
            assert(byte_views(parts@)[i as int] == parts@[i as int]@);
            assert(all[i as int] == new_segment(parts@[i as int]@, mark@, bytes@));
            assert(all.take(i + 1).drop_last() =~= all.take(i as int));
            assert(all.take(i + 1).last() == all[i as int]);
            if i == 0 {
                assert(out@ =~= all[0]);
            }
        }
    }
    assert(all.take(all.len() as int) =~= all);
    out
}

// ── Laws ────────────────────────────────────────────────────────────────────

/// A body in which no segment carries the field is left exactly as it is.
pub proof fn law_absent_field_changes_nothing(
    body: Seq<u8>,
    boundary: Seq<char>,
    field: Seq<char>,
    value: Seq<char>,
)
    requires
        forall|k: int|
            0 <= k < split_by(body, delimiter(boundary)).len() ==> !carries(
                #[trigger] split_by(body, delimiter(boundary))[k],
                field_mark(field),
            ),
    ensures
        rewritten(body, boundary, field, value) == body,
{
    let d = delimiter(boundary);
    let segments = split_by(body, d);
    assert(new_segments(segments, field_mark(field), encode_utf8(value)) =~= segments);
    lemma_delimiter_nonempty(boundary);
    lemma_join_split_by(body, d);
}

proof fn lemma_delimiter_nonempty(boundary: Seq<char>)
    ensures
        delimiter(boundary).len() > 0,
{
    reveal_strlit("--");
    lemma_encoded_nonempty("--"@ + boundary);
}

/// A piece before a delimiter: none begins earlier.
spec fn clean_before(piece: Seq<u8>, d: Seq<u8>) -> bool {
    forall|j: int| 0 <= j < piece.len() ==> !occurs_at(piece + d, d, j)
}

/// Pieces such as splitting gives them.
spec fn clean_pieces(pieces: Seq<Seq<u8>>, d: Seq<u8>) -> bool {
    &&& pieces.len() > 0
    &&& forall|k: int| 0 <= k < pieces.len() - 1 ==> clean_before(#[trigger] pieces[k], d)
    &&& forall|j: int| 0 <= j ==> !occurs_at(pieces.last(), d, j)
}

proof fn lemma_occurs_in_prefix(s: Seq<u8>, n: int, d: Seq<u8>, j: int)
    requires
        0 <= n <= s.len(),
        occurs_at(s.take(n), d, j),
    ensures
        occurs_at(s, d, j),
{
    assert(s.take(n).subrange(j, j + d.len()) =~= s.subrange(j, j + d.len()));
}

proof fn lemma_head_is_clean(s: Seq<u8>, d: Seq<u8>, p: int)
    requires
        d.len() > 0,
        occurs_at(s, d, p),
        forall|j: int| 0 <= j < p ==> !occurs_at(s, d, j),
    ensures
        clean_before(s.take(p), d),
{
    let head = s.take(p);
    let n = p + d.len();
    assert(s.take(p) + s.subrange(p, n) =~= s.take(n));
    assert(head + d == s.take(n));
    assert forall|j: int| 0 <= j < head.len() implies !occurs_at(head + d, d, j) by {
        if occurs_at(head + d, d, j) {
            lemma_occurs_in_prefix(s, n, d, j);
        }
    }
}

proof fn lemma_clean_cons(head: Seq<u8>, tail: Seq<Seq<u8>>, d: Seq<u8>)
    requires
        clean_before(head, d),
        clean_pieces(tail, d),
    ensures
        clean_pieces(seq![head] + tail, d),
{
    let all = seq![head] + tail;
    assert forall|k: int| 0 <= k < all.len() - 1 implies clean_before(#[trigger] all[k], d) by {
        if k > 0 {
            assert(all[k] == tail[k - 1]);
        }
    }
    assert(all.last() == tail.last());
}

proof fn lemma_split_is_clean(s: Seq<u8>, d: Seq<u8>)
    requires
        d.len() > 0,
    ensures
        clean_pieces(split_by(s, d), d),
    decreases s.len(),
{
    lemma_find_from(s, d, 0);
    match find(s, d) {
        Some(p) => {
            let rest = s.skip(p + d.len());
            lemma_split_is_clean(rest, d);
            lemma_head_is_clean(s, d, p);
            lemma_clean_cons(s.take(p), split_by(rest, d), d);
        },
        None => {
            assert(split_by(s, d) == seq![s]);
            assert(seq![s].last() == s);
        },
    }
}

proof fn lemma_split_of_join(pieces: Seq<Seq<u8>>, d: Seq<u8>)
    requires
        d.len() > 0,
        clean_pieces(pieces, d),
    ensures
        split_by(join(pieces, d), d) == pieces,
    decreases pieces.len(),
{
    if pieces.len() == 1 {
        let s = pieces[0];
        assert(join(pieces, d) == s);
        lemma_find_from(s, d, 0);
        if let Some(p) = find(s, d) {
            assert(occurs_at(pieces.last(), d, p));
        }
        assert(seq![s] =~= pieces);
    } else {
        let head = pieces[0];
        let tail = pieces.drop_first();
        assert(seq![head] + tail =~= pieces);
        lemma_join_cons(head, tail, d);
        assert(clean_pieces(tail, d)) by {
            assert forall|k: int| 0 <= k < tail.len() - 1 implies clean_before(
                #[trigger] tail[k],
                d,
            ) by {
                assert(clean_before(pieces[k + 1], d));
            }
            assert(tail.last() == pieces.last());
        }
        lemma_split_of_join(tail, d);
        let rest = join(tail, d);
        let s = head + d + rest;
        assert(s.subrange(head.len() as int, (head.len() + d.len()) as int) =~= d);
        assert forall|j: int| 0 <= j < head.len() implies !occurs_at(s, d, j) by {
            if occurs_at(s, d, j) {
                assert(s.subrange(j, j + d.len()) =~= (head + d).subrange(j, j + d.len()));
                assert(clean_before(pieces[0], d));
                assert(occurs_at(head + d, d, j));
            }
        }
        lemma_find_is(s, d, head.len() as int);
        assert(s.take(head.len() as int) =~= head);
        assert(s.skip((head.len() + d.len()) as int) =~= rest);
    }
}

/// No line end byte stands in it.
pub open spec fn on_one_line(s: Seq<u8>) -> bool {
    forall|i: int| 0 <= i < s.len() ==> s[i] != 13 && s[i] != 10
}

/// A delimiter cannot begin inside a rewritten segment.
proof fn lemma_new_segment_clean(
    segment: Seq<u8>,
    mark: Seq<u8>,
    value: Seq<u8>,
    d: Seq<u8>,
    tail: Seq<u8>,
    j: int,
)
    requires
        d.len() > 0,
        on_one_line(d),
        !contains(value, d),
        carries(segment, mark),
        forall|i: int| 0 <= i && i + d.len() <= segment.len() ==> !occurs_at(segment, d, i),
        0 <= j < new_segment(segment, mark, value).len(),
    ensures
        !occurs_at(new_segment(segment, mark, value) + tail, d, j),
{
    let h = find(segment, blank_line())->0;
    lemma_find_from(segment, blank_line(), 0);
    assert(segment.subrange(h, h + 4) == blank_line());
    let n = new_segment(segment, mark, value);
    let all = n + tail;
    let m = d.len() as int;
    let len = n.len() as int;
    if occurs_at(all, d, j) {
        assert forall|i: int| j <= i < j + m implies all[i] != 13 && all[i] != 10 by {
            assert(all.subrange(j, j + m)[i - j] == d[i - j]);
        }
        assert(all[h + 3] == 10) by {
            assert(segment.subrange(h, h + 4)[3] == segment[h + 3]);
        }
        assert(all[h] == 13) by {
            assert(segment.subrange(h, h + 4)[0] == segment[h]);
        }
        assert(all[len - 2] == 13);
        assert(all[len - 1] == 10);
        if j <= h {
            assert(j + m <= h);
            assert(segment.subrange(j, j + m) =~= all.subrange(j, j + m));
            assert(occurs_at(segment, d, j));
        } else {
            assert(j >= h + 4) by {
                assert(segment.subrange(h, h + 4)[1] == segment[h + 1]);
                assert(segment.subrange(h, h + 4)[2] == segment[h + 2]);
                if j == h + 1 {
                    assert(all[j] == 10);
                } else if j == h + 2 {
                    assert(all[j] == 13);
                } else if j == h + 3 {
                    assert(all[j] == 10);
                }
            }
            assert(j + m <= len - 2);
            let at = j - (h + 4);
            assert(value.subrange(at, at + m) =~= all.subrange(j, j + m));
            assert(occurs_at(value, d, at));
            lemma_find_from(value, d, 0);
        }
    }
}

/// A part as a form has it: a line end, then headers.
pub open spec fn framed(part: Seq<u8>) -> bool {
    starts_with(part, crlf()) && !starts_with(part, blank_line())
}

/// Where the headers of a framed part end.
proof fn lemma_framed_headers(part: Seq<u8>)
    requires
        framed(part),
    ensures
        find(part, blank_line()) matches Some(h) ==> h >= 2 && find(
            part.skip(2),
            blank_line(),
        ) == Some(h - 2),
        find(part, blank_line()) is None ==> find(part.skip(2), blank_line()) is None,
        part.len() >= 2,
        part[0] == 13,
        part[1] == 10,
{
    let p = part.skip(2);
    assert(part.subrange(0, 2)[0] == part[0]);
    assert(part.subrange(0, 2)[1] == part[1]);
    lemma_find_from(part, blank_line(), 0);
    lemma_find_from(p, blank_line(), 0);
    assert forall|j: int| 0 <= j implies (#[trigger] occurs_at(p, blank_line(), j) <==> occurs_at(
        part,
        blank_line(),
        j + 2,
    )) by {
        if j + 4 <= p.len() {
            assert(p.subrange(j, j + 4) =~= part.subrange(j + 2, j + 6));
        }
    }
    match find(part, blank_line()) {
        Some(h) => {
            assert(h != 0);
            if h == 1 {
                assert(part.subrange(1, 5)[0] == part[1]);
            }
            assert(occurs_at(p, blank_line(), h - 2));
            assert forall|j: int| 0 <= j < h - 2 implies !occurs_at(p, blank_line(), j) by {
                assert(!occurs_at(part, blank_line(), j + 2));
            }
            lemma_find_is(p, blank_line(), h - 2);
        },
        None => {
            if let Some(j) = find(p, blank_line()) {
                assert(occurs_at(part, blank_line(), j + 2));
            }
        },
    }
}

/// A mark begins with a letter, so it stands in the headers with or without
/// the line end before them.
proof fn lemma_mark_after_line_end(headers: Seq<u8>, mark: Seq<u8>)
    requires
        headers.len() >= 2,
        headers[0] == 13,
        headers[1] == 10,
        mark.len() > 0,
        mark[0] != 13,
        mark[0] != 10,
    ensures
        holds(headers, mark) == holds(headers.skip(2), mark),
{
    let rest = headers.skip(2);
    if holds(headers, mark) {
        let j = choose|j: int| #[trigger] marks_at(headers, mark, j);
        assert(headers.subrange(j, j + mark.len())[0] == headers[j]);
        assert(j >= 2);
        assert(rest.subrange(j - 2, j - 2 + mark.len()) =~= headers.subrange(j, j + mark.len()));
        assert(marks_at(rest, mark, j - 2));
    }
    if holds(rest, mark) {
        let j = choose|j: int| #[trigger] marks_at(rest, mark, j);
        assert(rest.subrange(j, j + mark.len()) =~= headers.subrange(j + 2, j + 2 + mark.len()));
        assert(marks_at(headers, mark, j + 2));
    }
}

/// A part that a form has, or a segment without headers.
pub open spec fn well_framed(part: Seq<u8>) -> bool {
    framed(part) || !contains(part, blank_line())
}

proof fn lemma_no_blank_after_line_end(part: Seq<u8>)
    requires
        !contains(part, blank_line()),
    ensures
        !contains(after_line_end(part), blank_line()),
{
    let p = after_line_end(part);
    lemma_find_from(part, blank_line(), 0);
    lemma_find_from(p, blank_line(), 0);
    if let Some(j) = find(p, blank_line()) {
        if starts_with(part, crlf()) {
            assert(p.subrange(j, j + 4) =~= part.subrange(j + 2, j + 6));
            assert(occurs_at(part, blank_line(), j + 2));
        } else {
            assert(occurs_at(part, blank_line(), j));
        }
    }
}

/// A part is read as carrying the field exactly when rewriting changes it, and
/// then it is read as the new value afterwards.
proof fn lemma_part_reads_back(part: Seq<u8>, mark: Seq<u8>, value: Seq<u8>)
    requires
        well_framed(part),
        mark.len() > 0,
        mark[0] != 13,
        mark[0] != 10,
    ensures
        marked_content(part, mark) is Some ==> marked_content(
            new_segment(part, mark, value),
            mark,
        ) == Some(value),
        marked_content(part, mark) is None ==> marked_content(
            new_segment(part, mark, value),
            mark,
        ) is None,
{
    if !contains(part, blank_line()) {
        lemma_no_blank_after_line_end(part);
    } else {
        lemma_framed_headers(part);
        let p = part.skip(2);
        assert(after_line_end(part) == p);
        let h = find(part, blank_line())->0;
        lemma_find_from(part, blank_line(), 0);
        lemma_find_from(p, blank_line(), 0);
        let headers = part.take(h);
        assert(headers.skip(2) =~= p.take(h - 2));
        lemma_mark_after_line_end(headers, mark);
        let n = new_segment(part, mark, value);
        if carries(part, mark) {
            let p2 = n.skip(2);
            assert(n.subrange(0, 2) =~= crlf());
            assert(starts_with(n, crlf()));
            assert(after_line_end(n) == p2);
            assert(p2 =~= p.take(h + 2) + value + crlf());
            assert(starts_with(p2, hyphens()) == starts_with(p, hyphens())) by {
                assert(p2.subrange(0, 2) =~= p.subrange(0, 2));
            }
            assert(p2.subrange(h - 2, h + 2) =~= p.subrange(h - 2, h + 2));
            assert(occurs_at(p2, blank_line(), h - 2));
            assert forall|j: int| 0 <= j < h - 2 implies !occurs_at(p2, blank_line(), j) by {
                if occurs_at(p2, blank_line(), j) {
                    assert(p2.subrange(j, j + 4) =~= p.subrange(j, j + 4));
                    assert(occurs_at(p, blank_line(), j));
                }
            }
            lemma_find_is(p2, blank_line(), h - 2);
            assert(p2.take(h - 2) =~= p.take(h - 2));
            let content = p2.skip(h + 2);
            assert(content =~= value + crlf());
            assert(content.subrange(content.len() - 2, content.len() as int) =~= crlf());
            assert(content.take(content.len() - 2) =~= value);
        }
    }
}

proof fn lemma_first_marked_reads_back(parts: Seq<Seq<u8>>, mark: Seq<u8>, value: Seq<u8>)
    requires
        forall|k: int| 0 <= k < parts.len() ==> well_framed(#[trigger] parts[k]),
        mark.len() > 0,
        mark[0] != 13,
        mark[0] != 10,
    ensures
        first_marked(parts, mark) is Some ==> first_marked(
            new_segments(parts, mark, value),
            mark,
        ) == Some(value),
        first_marked(parts, mark) is None ==> first_marked(
            new_segments(parts, mark, value),
            mark,
        ) is None,
    decreases parts.len(),
{
    if parts.len() > 0 {
        let front = parts.drop_last();
        assert forall|k: int| 0 <= k < front.len() implies well_framed(#[trigger] front[k]) by {
            assert(well_framed(parts[k]));
        }
        lemma_first_marked_reads_back(front, mark, value);
        assert(well_framed(parts[parts.len() - 1]));
        lemma_part_reads_back(parts.last(), mark, value);
        let next = new_segments(parts, mark, value);
        assert(next.drop_last() =~= new_segments(front, mark, value));
        assert(next.last() == new_segment(parts.last(), mark, value));
    }
}

proof fn lemma_mark_begins_with_a_letter(field: Seq<char>)
    ensures
        field_mark(field).len() > 0,
        field_mark(field)[0] != 13,
        field_mark(field)[0] != 10,
{
    let s = "name=\""@ + field + "\""@;
    reveal_strlit("name=\"");
    assert(s[0] == 'n');
    let c = s[0] as u32;
    assert(c & 0x7f == 110) by (bit_vector)
        requires
            c == 110,
    ;
    assert(encode_utf8(s) == vstd::utf8::encode_scalar(c) + encode_utf8(s.drop_first()));
    assert(vstd::utf8::encode_scalar(c)[0] == 110u8);
}

/// A segment keeps its headers, and where they end, when its content changes.
proof fn lemma_headers_stay(segment: Seq<u8>, mark: Seq<u8>, value: Seq<u8>)
    requires
        carries(segment, mark),
    ensures
        find(new_segment(segment, mark, value), blank_line()) == find(segment, blank_line()),
        new_segment(segment, mark, value).take(find(segment, blank_line())->0 + 4) == segment.take(
            find(segment, blank_line())->0 + 4,
        ),
        new_segment(segment, mark, value).take(find(segment, blank_line())->0) == segment.take(
            find(segment, blank_line())->0,
        ),
{
    let h = find(segment, blank_line())->0;
    let n = new_segment(segment, mark, value);
    lemma_find_from(segment, blank_line(), 0);
    assert(n.subrange(h, h + 4) =~= segment.subrange(h, h + 4));
    assert forall|j: int| 0 <= j < h implies !occurs_at(n, blank_line(), j) by {
        if occurs_at(n, blank_line(), j) {
            assert(n.subrange(j, j + 4) =~= segment.subrange(j, j + 4));
            assert(occurs_at(segment, blank_line(), j));
        }
    }
    lemma_find_is(n, blank_line(), h);
    assert(n.take(h + 4) =~= segment.take(h + 4));
    assert(n.take(h) =~= segment.take(h));
}

/// A rewritten body is cut where the body was.
proof fn lemma_rewritten_segments(
    body: Seq<u8>,
    boundary: Seq<char>,
    field: Seq<char>,
    value: Seq<char>,
)
    requires
        on_one_line(delimiter(boundary)),
        !contains(encode_utf8(value), delimiter(boundary)),
    ensures
        split_by(rewritten(body, boundary, field, value), delimiter(boundary)) == new_segments(
            split_by(body, delimiter(boundary)),
            field_mark(field),
            encode_utf8(value),
        ),
{
    let d = delimiter(boundary);
    let mark = field_mark(field);
    let v = encode_utf8(value);
    let pieces = split_by(body, d);
    let next = new_segments(pieces, mark, v);
    lemma_delimiter_nonempty(boundary);
    lemma_split_is_clean(body, d);
    assert(clean_pieces(next, d)) by {
        assert forall|k: int| 0 <= k < next.len() - 1 implies clean_before(#[trigger] next[k], d) by {
            let piece = pieces[k];
            assert(clean_before(piece, d));
            if carries(piece, mark) {
                assert forall|i: int| 0 <= i && i + d.len() <= piece.len() implies !occurs_at(
                    piece,
                    d,
                    i,
                ) by {
                    if occurs_at(piece, d, i) {
                        assert((piece + d).subrange(i, i + d.len()) =~= piece.subrange(
                            i,
                            i + d.len(),
                        ));
                        assert(occurs_at(piece + d, d, i));
                    }
                }
                assert forall|j: int| 0 <= j < next[k].len() implies !occurs_at(
                    next[k] + d,
                    d,
                    j,
                ) by {
                    lemma_new_segment_clean(piece, mark, v, d, d, j);
                }
            }
        }
        let last = pieces.last();
        assert(next.last() == new_segment(last, mark, v));
        if carries(last, mark) {
            assert forall|j: int| 0 <= j implies !occurs_at(next.last(), d, j) by {
                if j < next.last().len() {
                    lemma_new_segment_clean(last, mark, v, d, Seq::empty(), j);
                    assert(next.last() + Seq::<u8>::empty() =~= next.last());
                }
            }
        }
    }
    lemma_split_of_join(next, d);
}

/// What is rewritten is read back: where a form carries the field, its new
/// value is found afterwards; where it does not, it does not afterwards. The
/// delimiter must not stand in the value, or the form would be cut there.
pub proof fn law_rewritten_field_reads_back(
    body: Seq<u8>,
    boundary: Seq<char>,
    field: Seq<char>,
    value: Seq<char>,
)
    requires
        on_one_line(delimiter(boundary)),
        !contains(encode_utf8(value), delimiter(boundary)),
        forall|k: int|
            1 <= k < split_by(body, delimiter(boundary)).len() ==> well_framed(
                #[trigger] split_by(body, delimiter(boundary))[k],
            ),
    ensures
        field_content(body, boundary, field) is Some ==> field_content(
            rewritten(body, boundary, field, value),
            boundary,
            field,
        ) == Some(encode_utf8(value)),
        content_text(encode_utf8(value)) == value,
        field_content(body, boundary, field) is None ==> field_content(
            rewritten(body, boundary, field, value),
            boundary,
            field,
        ) is None,
{
    vstd::utf8::encode_utf8_valid_utf8(value);
    vstd::utf8::encode_utf8_decode_utf8(value);
    let d = delimiter(boundary);
    let mark = field_mark(field);
    let v = encode_utf8(value);
    let pieces = split_by(body, d);
    lemma_delimiter_nonempty(boundary);
    lemma_mark_begins_with_a_letter(field);
    lemma_split_is_clean(body, d);
    lemma_rewritten_segments(body, boundary, field, value);
    let next = new_segments(pieces, mark, v);
    let parts = pieces.drop_first();
    assert(next.drop_first() =~= new_segments(parts, mark, v));
    assert forall|k: int| 0 <= k < parts.len() implies well_framed(#[trigger] parts[k]) by {
        assert(well_framed(pieces[k + 1]));
    }
    lemma_first_marked_reads_back(parts, mark, v);
}

/// Of two writes of one field the second wins: the first leaves no trace.
pub proof fn law_second_write_wins(
    body: Seq<u8>,
    boundary: Seq<char>,
    field: Seq<char>,
    first: Seq<char>,
    second: Seq<char>,
)
    requires
        on_one_line(delimiter(boundary)),
        !contains(encode_utf8(first), delimiter(boundary)),
    ensures
        rewritten(rewritten(body, boundary, field, first), boundary, field, second) == rewritten(
            body,
            boundary,
            field,
            second,
        ),
{
    let mark = field_mark(field);
    let v = encode_utf8(first);
    let w = encode_utf8(second);
    let pieces = split_by(body, delimiter(boundary));
    lemma_rewritten_segments(body, boundary, field, first);
    let once = new_segments(pieces, mark, v);
    assert forall|k: int| 0 <= k < pieces.len() implies #[trigger] new_segments(once, mark, w)[k]
        == new_segments(pieces, mark, w)[k] by {
        let s = pieces[k];
        if carries(s, mark) {
            lemma_headers_stay(s, mark, v);
        }
        assert(new_segment(new_segment(s, mark, v), mark, w) == new_segment(s, mark, w));
    }
    assert(new_segments(once, mark, w) =~= new_segments(pieces, mark, w));
}

/// A part is read only where its headers hold the mark, and what is read is
/// its content without the line end after it.
proof fn lemma_marked_carries(part: Seq<u8>, mark: Seq<u8>)
    requires
        well_framed(part),
        mark.len() > 0,
        mark[0] != 13,
        mark[0] != 10,
    ensures
        marked_content(part, mark) matches Some(c) ==> carries(part, mark) && c == before_line_end(
            part.skip(find(part, blank_line())->0 + 4),
        ),
{
    if !contains(part, blank_line()) {
        lemma_no_blank_after_line_end(part);
    } else {
        lemma_framed_headers(part);
        let p = part.skip(2);
        let h = find(part, blank_line())->0;
        lemma_find_from(part, blank_line(), 0);
        assert(part.take(h).skip(2) =~= p.take(h - 2));
        lemma_mark_after_line_end(part.take(h), mark);
        assert(p.skip(h + 2) =~= part.skip(h + 4));
    }
}

proof fn lemma_first_marked_is_one(parts: Seq<Seq<u8>>, mark: Seq<u8>) -> (k: int)
    requires
        first_marked(parts, mark) is Some,
    ensures
        0 <= k < parts.len(),
        marked_content(parts[k], mark) == first_marked(parts, mark),
    decreases parts.len(),
{
    if first_marked(parts.drop_last(), mark) is Some {
        lemma_first_marked_is_one(parts.drop_last(), mark)
    } else {
        parts.len() - 1
    }
}

/// Writing back what was read changes nothing. The field must be a text, stand
/// in one part only, and that part must end its content with a line end, as a
/// form has it: otherwise the other parts take the value too, or a line end is
/// added.
pub proof fn law_writing_back_changes_nothing(
    body: Seq<u8>,
    boundary: Seq<char>,
    field: Seq<char>,
)
    requires
        forall|k: int|
            1 <= k < split_by(body, delimiter(boundary)).len() ==> well_framed(
                #[trigger] split_by(body, delimiter(boundary))[k],
            ),
        forall|j: int, k: int|
            0 <= j < split_by(body, delimiter(boundary)).len() && 0 <= k < split_by(
                body,
                delimiter(boundary),
            ).len() && carries(
                #[trigger] split_by(body, delimiter(boundary))[j],
                field_mark(field),
            ) && carries(#[trigger] split_by(body, delimiter(boundary))[k], field_mark(field))
                ==> j == k,
        forall|k: int|
            0 <= k < split_by(body, delimiter(boundary)).len() && carries(
                #[trigger] split_by(body, delimiter(boundary))[k],
                field_mark(field),
            ) ==> ends_with(
                split_by(body, delimiter(boundary))[k].skip(
                    find(split_by(body, delimiter(boundary))[k], blank_line())->0 + 4,
                ),
                crlf(),
            ),
        field_content(body, boundary, field) is Some,
        valid_utf8(field_content(body, boundary, field)->0),
    ensures
        rewritten(
            body,
            boundary,
            field,
            content_text(field_content(body, boundary, field)->0),
        ) == body,
{
    let d = delimiter(boundary);
    let mark = field_mark(field);
    let pieces = split_by(body, d);
    let parts = pieces.drop_first();
    let c = field_content(body, boundary, field)->0;
    let v = encode_utf8(decode_utf8(c));
    vstd::utf8::decode_utf8_encode_utf8(c);
    lemma_delimiter_nonempty(boundary);
    lemma_mark_begins_with_a_letter(field);
    lemma_join_split_by(body, d);
    let at = lemma_first_marked_is_one(parts, mark) + 1;
    let part = pieces[at];
    assert(part == parts[at - 1]);
    assert(well_framed(part));
    lemma_marked_carries(part, mark);
    let h = find(part, blank_line())->0;
    lemma_find_from(part, blank_line(), 0);
    let content = part.skip(h + 4);
    assert(ends_with(content, crlf()));
    assert(content =~= content.take(content.len() - 2) + content.subrange(
        content.len() - 2,
        content.len() as int,
    ));
    assert(content == c + crlf());
    assert(part =~= part.take(h + 4) + content);
    assert(part.take(h + 4) + v + crlf() =~= part.take(h + 4) + (v + crlf()));
    assert forall|k: int| 0 <= k < pieces.len() implies #[trigger] new_segments(pieces, mark, v)[k]
        == pieces[k] by {
        if carries(pieces[k], mark) {
            assert(carries(pieces[at], mark));
            assert(k == at);
        }
    }
    assert(new_segments(pieces, mark, v) =~= pieces);
}

proof fn lemma_other_marked_stays(
    parts: Seq<Seq<u8>>,
    mark: Seq<u8>,
    other: Seq<u8>,
    value: Seq<u8>,
)
    requires
        forall|k: int| 0 <= k < parts.len() ==> well_framed(#[trigger] parts[k]),
        forall|k: int|
            0 <= k < parts.len() ==> !(carries(#[trigger] parts[k], mark) && carries(
                parts[k],
                other,
            )),
        other.len() > 0,
        other[0] != 13,
        other[0] != 10,
    ensures
        first_marked(new_segments(parts, mark, value), other) == first_marked(parts, other),
    decreases parts.len(),
{
    if parts.len() > 0 {
        let front = parts.drop_last();
        let part = parts.last();
        let next = new_segments(parts, mark, value);
        assert forall|k: int| 0 <= k < front.len() implies well_framed(#[trigger] front[k]) && !(
        carries(front[k], mark) && carries(front[k], other)) by {
            assert(well_framed(parts[k]));
        }
        lemma_other_marked_stays(front, mark, other, value);
        assert(next.drop_last() =~= new_segments(front, mark, value));
        assert(next.last() == new_segment(part, mark, value));
        assert(well_framed(parts[parts.len() - 1]));
        if carries(part, mark) {
            let n = new_segment(part, mark, value);
            lemma_headers_stay(part, mark, value);
            lemma_find_from(part, blank_line(), 0);
            lemma_framed_headers(part);
            assert(n.subrange(0, 2) =~= part.subrange(0, 2));
            assert(n.subrange(0, 4) =~= part.subrange(0, 4));
            assert(framed(n));
            assert(!carries(n, other));
            lemma_marked_carries(part, other);
            lemma_marked_carries(n, other);
        }
    }
}

/// A write of one field leaves what is read of another as it was, where no
/// part carries both.
pub proof fn law_other_fields_stay(
    body: Seq<u8>,
    boundary: Seq<char>,
    field: Seq<char>,
    other: Seq<char>,
    value: Seq<char>,
)
    requires
        on_one_line(delimiter(boundary)),
        !contains(encode_utf8(value), delimiter(boundary)),
        forall|k: int|
            1 <= k < split_by(body, delimiter(boundary)).len() ==> well_framed(
                #[trigger] split_by(body, delimiter(boundary))[k],
            ),
        forall|k: int|
            1 <= k < split_by(body, delimiter(boundary)).len() ==> !(carries(
                #[trigger] split_by(body, delimiter(boundary))[k],
                field_mark(field),
            ) && carries(split_by(body, delimiter(boundary))[k], field_mark(other))),
    ensures
        field_content(rewritten(body, boundary, field, value), boundary, other) == field_content(
            body,
            boundary,
            other,
        ),
{
    let d = delimiter(boundary);
    let mark = field_mark(field);
    let v = encode_utf8(value);
    let pieces = split_by(body, d);
    let parts = pieces.drop_first();
    lemma_delimiter_nonempty(boundary);
    lemma_split_by_nonempty(body, d);
    lemma_mark_begins_with_a_letter(other);
    lemma_rewritten_segments(body, boundary, field, value);
    assert(new_segments(pieces, mark, v).drop_first() =~= new_segments(parts, mark, v));
    assert forall|k: int| 0 <= k < parts.len() implies well_framed(#[trigger] parts[k]) && !(carries(
        parts[k],
        mark,
    ) && carries(parts[k], field_mark(other))) by {
        assert(well_framed(pieces[k + 1]));
    }
    lemma_other_marked_stays(parts, mark, field_mark(other), v);
}

/// The parameter `boundary=` of a content type names the boundary, with or
/// without quotes around it and whatever space stands around the parameter. The
/// first such parameter counts. One with nothing in it counts for nothing, nor
/// does any other parameter.
pub proof fn law_boundary_parameter(
    before: Seq<char>,
    name: Seq<char>,
    after: Seq<char>,
    parts: Seq<Seq<char>>,
    other: Seq<char>,
)
    requires
        all_space(before),
        all_space(after),
        tight(name),
        name.len() > 0,
        name[0] != '"',
        name.last() != '"',
        !starts_with(trim(other), "boundary="@),
    ensures
        boundary_param(before + ("boundary="@ + name) + after) == Some(name),
        boundary_param(before + ("boundary="@ + (seq!['"'] + name + seq!['"'])) + after) == Some(
            name,
        ),
        boundary_param(before + "boundary="@ + after) is None,
        boundary_param(other) is None,
        first_boundary(Seq::empty()) is None,
        first_boundary(parts.push(other)) == first_boundary(parts),
        first_boundary(parts) is Some ==> first_boundary(parts.push(before + ("boundary="@ + name) + after))
            == first_boundary(parts),
        first_boundary(parts) is None ==> first_boundary(parts.push(before + ("boundary="@ + name) + after))
            == Some(name),
{
    reveal_strlit("boundary=");
    let key = "boundary="@;
    let n = key.len() as int;
    let plain = key + name;
    assert(plain[0] == key[0] && plain.last() == name.last());
    law_trim(before, plain, after);
    assert(plain.subrange(0, n) =~= key);
    assert(plain.skip(n) =~= name);
    assert(without_quotes(name) == name);
    let q = seq!['"'] + name + seq!['"'];
    let quoted = key + q;
    assert(quoted[0] == key[0] && quoted.last() == '"');
    law_trim(before, quoted, after);
    assert(quoted.subrange(0, n) =~= key);
    assert(quoted.skip(n) =~= q);
    assert(without_quotes(q) == name) by {
        let half = name + seq!['"'];
        assert(q[0] == '"');
        assert(q.drop_first() =~= half);
        assert(half[0] == name[0]);
        assert(half.last() == '"');
        assert(half.drop_last() =~= name);
        assert(without_quotes(q) == without_quotes(half));
        assert(without_quotes(half) == without_quotes(name));
    }
    assert(key[0] == 'b' && key.last() == '=');
    law_trim(before, key, after);
    assert(key.subrange(0, n) =~= key);
    assert(key.skip(n) =~= Seq::<char>::empty());
    assert(parts.push(other).drop_last() =~= parts);
    assert(parts.push(before + plain + after).drop_last() =~= parts);
}

/// What stands before the parts of a form, and how the headers of a part name
/// its field.
pub proof fn law_marks_of_a_form(boundary: Seq<char>, field: Seq<char>)
    ensures
        delimiter(boundary) == encode_utf8("--"@ + boundary),
        field_mark(field) == encode_utf8("name=\""@ + field + "\""@),
{
}

/// The headers of a part name a field where they begin with its mark, or hold
/// it after a tab, a line end, a space or a semicolon; not where other bytes
/// stand before it.
pub proof fn law_which_field_a_part_is(before: Seq<u8>, b: u8, mark: Seq<u8>, after: Seq<u8>)
    ensures
        holds(mark + after, mark),
        b == 9 || b == 10 || b == 13 || b == 32 || b == 59 ==> holds(
            before + seq![b] + mark + after,
            mark,
        ),
        holds(after, mark) ==> exists|i: int|
            occurs_at(after, mark, i) && (i == 0 || seq![9u8, 10u8, 13u8, 32u8, 59u8].contains(
                #[trigger] after[i - 1],
            )),
{
    let first = mark + after;
    assert(first.subrange(0, mark.len() as int) =~= mark);
    assert(marks_at(first, mark, 0));
    let s = before + seq![b] + mark + after;
    let i = before.len() as int + 1;
    assert(s.subrange(i, i + mark.len()) =~= mark);
    assert(s[i - 1] == b);
    if b == 9 || b == 10 || b == 13 || b == 32 || b == 59 {
        assert(marks_at(s, mark, i));
    }
    if holds(after, mark) {
        let k = choose|k: int| #[trigger] marks_at(after, mark, k);
        let set = seq![9u8, 10u8, 13u8, 32u8, 59u8];
        if k > 0 {
            let c = after[k - 1];
            assert(set[0] == 9 && set[1] == 10 && set[2] == 13 && set[3] == 32 && set[4] == 59);
            assert(set.contains(c));
        }
        assert(occurs_at(after, mark, k) && (k == 0 || set.contains(after[k - 1])));
    }
}

/// A part reads as what stands between the empty line after its headers and the
/// line end before the next delimiter, if its headers name the field. The end
/// of a form, and a part without an empty line, hold no field.
pub proof fn law_content_of_a_part(headers: Seq<u8>, content: Seq<u8>, mark: Seq<u8>, rest: Seq<u8>)
    requires
        headers.len() >= 2,
        headers[0] != 45,
        headers[0] != 13,
        find(headers + seq![13u8, 10u8, 13u8, 10u8] + content + seq![13u8, 10u8], blank_line())
            == Some(headers.len() as int),
    ensures
        marked_content(
            seq![13u8, 10u8] + (headers + seq![13u8, 10u8, 13u8, 10u8] + content + seq![
                13u8,
                10u8,
            ]),
            mark,
        ) == if holds(headers, mark) {
            Some(content)
        } else {
            None
        },
        marked_content(seq![45u8, 45u8] + rest, mark) is None,
        find(rest, seq![13u8, 10u8, 13u8, 10u8]) is None ==> marked_content(rest, mark) is None,
{
    let line = seq![13u8, 10u8];
    let blank = seq![13u8, 10u8, 13u8, 10u8];
    assert(line =~= crlf());
    assert(blank =~= blank_line());
    let p = headers + blank + content + line;
    let part = line + p;
    let h = headers.len() as int;
    assert(part.subrange(0, 2) =~= line);
    assert(part.skip(2) =~= p);
    if starts_with(p, hyphens()) {
        assert(p.subrange(0, 2)[0] == p[0]);
        assert(p[0] == headers[0]);
    }
    assert(p.take(h) =~= headers);
    let tail = p.skip(h + 4);
    assert(tail =~= content + line);
    assert(tail.subrange(content.len() as int, tail.len() as int) =~= line);
    assert(ends_with(tail, crlf()));
    assert(tail.take(tail.len() - 2) =~= content);
    let end = seq![45u8, 45u8] + rest;
    assert(end.subrange(0, 2) =~= hyphens());
    if starts_with(end, crlf()) {
        assert(end.subrange(0, 2)[0] == end[0]);
    }
    lemma_find_from(rest, blank_line(), 0);
    if starts_with(rest, crlf()) {
        let q = rest.skip(2);
        lemma_find_from(q, blank_line(), 0);
        if let Some(k) = find(q, blank_line()) {
            assert(q.subrange(k, k + 4) =~= rest.subrange(k + 2, k + 6));
            assert(occurs_at(rest, blank_line(), k + 2));
        }
    }
}

/// The first part that names the field is the field; what stands before the
/// first delimiter is no part.
pub proof fn law_first_part_counts(
    body: Seq<u8>,
    boundary: Seq<char>,
    field: Seq<char>,
    parts: Seq<Seq<u8>>,
    part: Seq<u8>,
)
    ensures
        field_content(body, boundary, field) == first_marked(
            split_by(body, encode_utf8("--"@ + boundary)).drop_first(),
            encode_utf8("name=\""@ + field + "\""@),
        ),
        first_marked(Seq::empty(), field_mark(field)) is None,
        first_marked(parts.push(part), field_mark(field)) == if first_marked(
            parts,
            field_mark(field),
        ) is Some {
            first_marked(parts, field_mark(field))
        } else {
            marked_content(part, field_mark(field))
        },
{
    assert(parts.push(part).drop_last() =~= parts);
}

/// A field that is written gets its new content between the empty line after
/// its headers and a line end; other parts stay as they are.
pub proof fn law_how_a_part_is_rewritten(
    headers: Seq<u8>,
    content: Seq<u8>,
    mark: Seq<u8>,
    value: Seq<u8>,
)
    requires
        find(headers + seq![13u8, 10u8, 13u8, 10u8] + content, blank_line()) == Some(
            headers.len() as int,
        ),
    ensures
        new_segment(headers + seq![13u8, 10u8, 13u8, 10u8] + content, mark, value) == if holds(
            headers,
            mark,
        ) {
            headers + seq![13u8, 10u8, 13u8, 10u8] + value + seq![13u8, 10u8]
        } else {
            headers + seq![13u8, 10u8, 13u8, 10u8] + content
        },
{
    let blank = seq![13u8, 10u8, 13u8, 10u8];
    let s = headers + blank + content;
    let h = headers.len() as int;
    assert(s.take(h) =~= headers);
    assert(s.take(h + 4) =~= headers + blank);
    assert(crlf() =~= seq![13u8, 10u8]);
}

} // verus!
