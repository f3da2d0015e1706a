//! Text forms of vectors: the bracketed, comma separated lists that the
//! table functions take as `VARCHAR` arguments.
//!
//! The functions here find the items of such lists; turning an item into a
//! number is left to the caller.

use vstd::prelude::*;

verus! {

// ---------------------------------------------------------------------------
// Character classes and trimming
// ---------------------------------------------------------------------------

/// The characters with the Unicode `White_Space` property, which is what
/// `char::is_whitespace` tests and what `str::trim` removes.
pub open spec fn is_white(c: char) -> bool {
    ||| ('\u{9}' <= c && c <= '\u{d}')
    ||| c == ' '
    ||| c == '\u{85}'
    ||| c == '\u{a0}'
    ||| c == '\u{1680}'
    ||| ('\u{2000}' <= c && c <= '\u{200a}')
    ||| c == '\u{2028}'
    ||| c == '\u{2029}'
    ||| c == '\u{202f}'
    ||| c == '\u{205f}'
    ||| c == '\u{3000}'
}

/// `s` without its leading white space.
pub open spec fn trim_start_white(s: Seq<char>) -> Seq<char>
    decreases s.len(),
{
    if s.len() > 0 && is_white(s[0]) {
        trim_start_white(s.drop_first())
    } else {
        s
    }
}

/// `s` without its trailing white space.
pub open spec fn trim_end_white(s: Seq<char>) -> Seq<char>
    decreases s.len(),
{
    if s.len() > 0 && is_white(s.last()) {
        trim_end_white(s.drop_last())
    } else {
        s
    }
}

/// `s` without white space at either end (`str::trim`).
pub open spec fn trim_white(s: Seq<char>) -> Seq<char> {
    trim_end_white(trim_start_white(s))
}

/// `s` without any of its leading `[` (`trim_start_matches('[')`).
pub open spec fn strip_open(s: Seq<char>) -> Seq<char>
    decreases s.len(),
{
    if s.len() > 0 && s[0] == '[' {
        strip_open(s.drop_first())
    } else {
        s
    }
}

/// `s` without any of its trailing `]` (`trim_end_matches(']')`).
pub open spec fn strip_close(s: Seq<char>) -> Seq<char>
    decreases s.len(),
{
    if s.len() > 0 && s.last() == ']' {
        strip_close(s.drop_last())
    } else {
        s
    }
}

/// The pieces of `s` between its commas (`str::split(',')`): one more
/// piece than there are commas.
pub open spec fn split_commas(s: Seq<char>) -> Seq<Seq<char>>
    decreases s.len(),
{
    if s.len() == 0 {
        seq![Seq::<char>::empty()]
    } else {
        let before = split_commas(s.drop_last());
        if s.last() == ',' {
            before.push(Seq::<char>::empty())
        } else {
            before.update(before.len() - 1, before.last().push(s.last()))
        }
    }
}

/// The text between the outer brackets of a list: trimmed, then without
/// its leading `[`s and trailing `]`s.
pub open spec fn list_body(s: Seq<char>) -> Seq<char> {
    strip_close(strip_open(trim_white(s)))
}

/// The items of a one-level list such as `[0.1, 0.2]`, untrimmed: none when
/// the body is empty, else the comma separated pieces of the body.
pub open spec fn list_pieces(s: Seq<char>) -> Seq<Seq<char>> {
    let body = list_body(s);
    if body.len() == 0 {
        Seq::empty()
    } else {
        split_commas(body)
    }
}

/// The pieces of `s` joined again with commas.
pub open spec fn join_commas(p: Seq<Seq<char>>) -> Seq<char>
    decreases p.len(),
{
    if p.len() == 0 {
        Seq::empty()
    } else if p.len() == 1 {
        p[0]
    } else {
        join_commas(p.drop_last()) + seq![','] + p.last()
    }
}

// ---------------------------------------------------------------------------
// Nested lists
// ---------------------------------------------------------------------------

/// Whether `s` starts with `[`.
pub open spec fn opens(s: Seq<char>) -> bool {
    s.len() >= 1 && s[0] == '['
}

/// Whether `s` starts with `[[`.
pub open spec fn opens_twice(s: Seq<char>) -> bool {
    s.len() >= 2 && s[0] == '[' && s[1] == '['
}

/// The position of the first `]` of `s`, if it has one.
pub open spec fn first_close(s: Seq<char>) -> Option<int>
    decreases s.len(),
{
    if s.len() == 0 {
        None
    } else {
        match first_close(s.drop_last()) {
            Some(i) => Some(i),
            None => if s.last() == ']' {
                Some(s.len() - 1)
            } else {
                None
            },
        }
    }
}

/// The state of the scan over the inside of a nested list: how deep the
/// scan is, the text gathered since the last row opened, and the text of
/// every row closed so far.
pub struct ScanState {
    pub depth: int,
    pub current: Seq<char>,
    pub rows: Seq<Seq<char>>,
}

/// One character of the scan. A `[` at depth 0 starts a new row; a `]` that
/// brings the depth back to 0 closes one; every other character is
/// gathered.
pub open spec fn scan_step(st: ScanState, c: char) -> ScanState {
    if c == '[' {
        ScanState {
            depth: st.depth + 1,
            current: if st.depth == 0 { Seq::empty() } else { st.current.push(c) },
            rows: st.rows,
        }
    } else if c == ']' {
        if st.depth - 1 == 0 {
            ScanState { depth: 0, current: st.current, rows: st.rows.push(st.current) }
        } else {
            ScanState { depth: st.depth - 1, current: st.current.push(c), rows: st.rows }
        }
    } else {
        ScanState { depth: st.depth, current: st.current.push(c), rows: st.rows }
    }
}

/// The scan over all of `s`, from depth 0.
pub open spec fn scan(s: Seq<char>) -> ScanState
    decreases s.len(),
{
    if s.len() == 0 {
        ScanState { depth: 0, current: Seq::empty(), rows: Seq::empty() }
    } else {
        scan_step(scan(s.drop_last()), s.last())
    }
}

/// `[` + `s` + `]`.
pub open spec fn bracketed(s: Seq<char>) -> Seq<char> {
    seq!['['] + s + seq![']']
}

/// The items of every row of a nested list `s` that starts with `[[`: the
/// scan runs over `s` without its first and last character, and each row's
/// text is read again as a one-level list.
pub open spec fn nested_rows(s: Seq<char>) -> Seq<Seq<Seq<char>>> {
    let rows = scan(s.subrange(1, s.len() - 1)).rows;
    Seq::new(rows.len(), |i: int| list_pieces(bracketed(rows[i])))
}

/// What the text of a set of vectors reads as.
pub enum VectorsShape {
    /// A one-level list: the items of the list.
    Flat(Seq<Seq<char>>),
    /// A list of lists: the items of each inner list, in order.
    Rows(Seq<Seq<Seq<char>>>),
    /// Neither.
    NotAList,
}

/// How the text `raw` of a set of vectors is read, once trimmed:
/// - a text that starts with `[` but not `[[` is one list, except where the
///   first `]` is followed (after white space) by a `,`: then the whole text
///   is a list of lists once wrapped in one more pair of brackets;
/// - a text that starts with `[[` is a list of lists;
/// - any other text is refused.
pub open spec fn vectors_shape(raw: Seq<char>) -> VectorsShape {
    let s = trim_white(raw);
    if opens(s) && !opens_twice(s) {
        match first_close(s) {
            Some(i) => {
                let after = trim_white(s.subrange(i + 1, s.len() as int));
                if after.len() > 0 && after[0] == ',' {
                    VectorsShape::Rows(nested_rows(bracketed(s)))
                } else {
                    VectorsShape::Flat(list_pieces(s))
                }
            },
            None => VectorsShape::Flat(list_pieces(s)),
        }
    } else if !opens_twice(s) {
        VectorsShape::NotAList
    } else {
        VectorsShape::Rows(nested_rows(s))
    }
}

/// Whether the inside of a trimmed text that starts with `[[` can be cut out
/// by dropping its first and last byte: its last character must be a
/// one-byte (ASCII) character.
pub open spec fn inner_cut_ok(raw: Seq<char>) -> bool {
    let s = trim_white(raw);
    opens_twice(s) ==> (s.last() as u32) < 0x80
}

// ---------------------------------------------------------------------------
// Lemmas
// ---------------------------------------------------------------------------

proof fn lemma_split_nonempty(s: Seq<char>)
    ensures
        split_commas(s).len() >= 1,
    decreases s.len(),
{
    if s.len() > 0 {
        lemma_split_nonempty(s.drop_last());
    }
}

/// Joining the comma separated pieces of a text with commas gives the text
/// back.
pub proof fn lemma_join_split(s: Seq<char>)
    ensures
        join_commas(split_commas(s)) == s,
    decreases s.len(),
{
    if s.len() > 0 {
        let p = s.drop_last();
        lemma_join_split(p);
        lemma_split_nonempty(p);
        let before = split_commas(p);
        if s.last() == ',' {
            let after = before.push(Seq::<char>::empty());
            assert(after.drop_last() =~= before);
            assert(join_commas(after) =~= p + seq![','] + Seq::<char>::empty());
            assert(s =~= p + seq![','] + Seq::<char>::empty());
        } else {
            let after = before.update(before.len() - 1, before.last().push(s.last()));
            if before.len() == 1 {
                assert(join_commas(after) == after[0]);
                assert(s =~= before[0].push(s.last()));
            } else {
                assert(after.drop_last() =~= before.drop_last());
                assert(join_commas(after) == join_commas(before.drop_last()) + seq![','] + after.last());
                assert(join_commas(before) == join_commas(before.drop_last()) + seq![','] + before.last());
                assert(s =~= join_commas(before) + seq![s.last()]);
                assert(join_commas(after) =~= join_commas(before) + seq![s.last()]);
            }
        }
    }
}

proof fn lemma_first_close_prefix(s: Seq<char>, m: int)
    requires
        0 <= m <= s.len(),
        first_close(s.take(m)) is Some,
    ensures
        first_close(s) == first_close(s.take(m)),
    decreases s.len(),
{
    if s.len() > m {
        assert(s.drop_last().take(m) =~= s.take(m));
        lemma_first_close_prefix(s.drop_last(), m);
    } else {
        assert(s.take(m) =~= s);
    }
}

proof fn lemma_trim_unchanged(s: Seq<char>)
    requires
        s.len() > 0,
        !is_white(s[0]),
        !is_white(s.last()),
    ensures
        trim_white(s) == s,
{
}

/// Lists separated by commas, as `string_agg` over single lists gives
/// them, read exactly as the list of those lists: the same rows, with the
/// same items.
pub proof fn lemma_joined_lists_read_as_nested(raw: Seq<char>)
    requires
        opens(trim_white(raw)),
        !opens_twice(trim_white(raw)),
        first_close(trim_white(raw)) matches Some(i) && {
            let s = trim_white(raw);
            let after = trim_white(s.subrange(i + 1, s.len() as int));
            after.len() > 0 && after[0] == ','
        },
    ensures
        inner_cut_ok(bracketed(trim_white(raw))),
        vectors_shape(raw) == vectors_shape(bracketed(trim_white(raw))),
{
    let b = bracketed(trim_white(raw));
    assert(b[0] == '[');
    assert(b.last() == ']');
    lemma_trim_unchanged(b);
    assert(b[1] == trim_white(raw)[0]);
}

/// No piece between commas holds a comma.
pub proof fn lemma_split_pieces_comma_free(s: Seq<char>)
    ensures
        forall|i: int, j: int|
            0 <= i < split_commas(s).len() && 0 <= j < split_commas(s)[i].len()
                ==> split_commas(s)[i][j] != ',',
    decreases s.len(),
{
    if s.len() > 0 {
        lemma_split_pieces_comma_free(s.drop_last());
        lemma_split_nonempty(s.drop_last());
    }
}


// ---------------------------------------------------------------------------
// Executable reading
// ---------------------------------------------------------------------------

/// An item of a one-level list: its text as it stands between the commas,
/// and the same text trimmed of white space (what is read as a number).
pub struct ListItem {
    pub piece: String,
    pub token: String,
}

/// The untrimmed texts of `items`.
pub open spec fn pieces_of(items: Seq<ListItem>) -> Seq<Seq<char>> {
    items.map_values(|it: ListItem| it.piece@)
}

/// Every item's token is its piece trimmed of white space.
pub open spec fn tokens_trimmed(items: Seq<ListItem>) -> bool {
    forall|i: int| 0 <= i < items.len() ==> #[trigger] items[i].token@ == trim_white(items[i].piece@)
}

/// The characters of `s`, in order.
pub fn chars_of(s: &str) -> (v: Vec<char>)
    ensures
        v@ == s@,
{
    let mut v: Vec<char> = Vec::new();
    for c in it: s.chars()
        invariant
            v@ == it.seq().take(it.index() as int),
            it.seq() == s@,
    {
        v.push(c);
    }
    proof {
        assert(v@ =~= s@);
    }
    v
}

/// Collects `v[lo..hi]` into a `String` (`FromIterator<&char> for String`).
#[verifier::external_body]
fn string_of_range(v: &Vec<char>, lo: usize, hi: usize) -> (s: String)
    requires
        lo <= hi <= v.len(),
    ensures
        s@ == v@.subrange(lo as int, hi as int),
{
    v[lo..hi].iter().collect()
}

/// The characters trimmed as white space are exactly the Unicode
/// White_Space characters, which `char::is_whitespace` tests: tab, line
/// feed, vertical tab, form feed, carriage return, space, next line,
/// no-break space, ogham space mark, the spaces U+2000 to U+200A, line and
/// paragraph separators, narrow no-break space, medium mathematical space
/// and ideographic space.
pub proof fn lemma_white_space_chars(c: char)
    ensures
        is_white(c) <==> (c == '\t' || c == '\n' || c == '\u{b}' || c == '\u{c}' || c == '\r'
            || c == ' ' || c == '\u{85}' || c == '\u{a0}' || c == '\u{1680}' || c == '\u{2000}'
            || c == '\u{2001}' || c == '\u{2002}' || c == '\u{2003}' || c == '\u{2004}' || c
            == '\u{2005}' || c == '\u{2006}' || c == '\u{2007}' || c == '\u{2008}' || c
            == '\u{2009}' || c == '\u{200a}' || c == '\u{2028}' || c == '\u{2029}' || c
            == '\u{202f}' || c == '\u{205f}' || c == '\u{3000}'),
{
}

fn is_white_char(c: char) -> (b: bool)
    ensures
        b == is_white(c),
{
    ('\u{9}' <= c && c <= '\u{d}') || c == ' ' || c == '\u{85}' || c == '\u{a0}' || c
        == '\u{1680}' || ('\u{2000}' <= c && c <= '\u{200a}') || c == '\u{2028}' || c
        == '\u{2029}' || c == '\u{202f}' || c == '\u{205f}' || c == '\u{3000}'
}

/// The bounds of `v[lo..hi]` trimmed of white space.
fn trim_range(v: &Vec<char>, lo: usize, hi: usize) -> (r: (usize, usize))
    requires
        lo <= hi <= v.len(),
    ensures
        lo <= r.0 <= r.1 <= hi,
        v@.subrange(r.0 as int, r.1 as int) == trim_white(v@.subrange(lo as int, hi as int)),
{
    let mut a = lo;
    while a < hi && is_white_char(v[a])
        invariant
            lo <= a <= hi <= v.len(),
            trim_start_white(v@.subrange(lo as int, hi as int)) == trim_start_white(
                v@.subrange(a as int, hi as int),
            ),
        decreases hi - a,
    {
        assert(v@.subrange(a as int, hi as int).drop_first() =~= v@.subrange(a + 1, hi as int));
        a = a + 1;
    }
    assert(trim_start_white(v@.subrange(a as int, hi as int)) == v@.subrange(a as int, hi as int));
    let mut b = hi;
    while b > a && is_white_char(v[b - 1])
        invariant
            lo <= a <= b <= hi <= v.len(),
            trim_end_white(v@.subrange(a as int, hi as int)) == trim_end_white(
                v@.subrange(a as int, b as int),
            ),
        decreases b - a,
    {
        assert(v@.subrange(a as int, b as int).drop_last() =~= v@.subrange(a as int, b - 1));
        b = b - 1;
    }
    assert(trim_end_white(v@.subrange(a as int, b as int)) == v@.subrange(a as int, b as int));
    (a, b)
}

/// The bounds of `v[lo..hi]` without its leading `[`s and trailing `]`s.
fn strip_brackets_range(v: &Vec<char>, lo: usize, hi: usize) -> (r: (usize, usize))
    requires
        lo <= hi <= v.len(),
    ensures
        lo <= r.0 <= r.1 <= hi,
        v@.subrange(r.0 as int, r.1 as int) == strip_close(
            strip_open(v@.subrange(lo as int, hi as int)),
        ),
{
    let mut a = lo;
    while a < hi && v[a] == '['
        invariant
            lo <= a <= hi <= v.len(),
            strip_open(v@.subrange(lo as int, hi as int)) == strip_open(
                v@.subrange(a as int, hi as int),
            ),
        decreases hi - a,
    {
        assert(v@.subrange(a as int, hi as int).drop_first() =~= v@.subrange(a + 1, hi as int));
        a = a + 1;
    }
    assert(strip_open(v@.subrange(a as int, hi as int)) == v@.subrange(a as int, hi as int));
    let mut b = hi;
    while b > a && v[b - 1] == ']'
        invariant
            lo <= a <= b <= hi <= v.len(),
            strip_close(v@.subrange(a as int, hi as int)) == strip_close(
                v@.subrange(a as int, b as int),
            ),
        decreases b - a,
    {
        assert(v@.subrange(a as int, b as int).drop_last() =~= v@.subrange(a as int, b - 1));
        b = b - 1;
    }
    assert(strip_close(v@.subrange(a as int, b as int)) == v@.subrange(a as int, b as int));
    (a, b)
}

fn item_of_range(v: &Vec<char>, lo: usize, hi: usize) -> (it: ListItem)
    requires
        lo <= hi <= v.len(),
    ensures
        it.piece@ == v@.subrange(lo as int, hi as int),
        it.token@ == trim_white(it.piece@),
{
    let piece = string_of_range(v, lo, hi);
    let (a, b) = trim_range(v, lo, hi);
    let token = string_of_range(v, a, b);
    ListItem { piece, token }
}

/// The items of the one-level list `v[lo..hi]`.
fn list_items_in(v: &Vec<char>, lo: usize, hi: usize) -> (items: Vec<ListItem>)
    requires
        lo <= hi <= v.len(),
    ensures
        pieces_of(items@) == list_pieces(v@.subrange(lo as int, hi as int)),
        tokens_trimmed(items@),
{
    let (t0, t1) = trim_range(v, lo, hi);
    let (b0, b1) = strip_brackets_range(v, t0, t1);
    let mut items: Vec<ListItem> = Vec::new();
    if b0 == b1 {
        assert(pieces_of(items@) =~= Seq::<Seq<char>>::empty());
        return items;
    }
    let mut start = b0;
    let mut k = b0;
    assert(v@.subrange(b0 as int, b0 as int) =~= Seq::<char>::empty());
    assert(pieces_of(items@) =~= Seq::<Seq<char>>::empty());
    assert(split_commas(v@.subrange(b0 as int, b0 as int)) =~= pieces_of(items@).push(
        v@.subrange(start as int, b0 as int),
    ));
    while k < b1
        invariant
            b0 <= start <= k <= b1 <= v.len(),
            split_commas(v@.subrange(b0 as int, k as int)) == pieces_of(items@).push(
                v@.subrange(start as int, k as int),
            ),
            tokens_trimmed(items@),
        decreases b1 - k,
    {
        let ghost before = pieces_of(items@);
        assert(v@.subrange(b0 as int, k + 1).drop_last() =~= v@.subrange(b0 as int, k as int));
        assert(v@.subrange(b0 as int, k + 1).last() == v@[k as int]);
        if v[k] == ',' {
            let it = item_of_range(v, start, k);
            items.push(it);
            assert(pieces_of(items@) =~= before.push(v@.subrange(start as int, k as int)));
            start = k + 1;
            assert(v@.subrange(start as int, k + 1) =~= Seq::<char>::empty());
        } else {
            assert(v@.subrange(start as int, k + 1) =~= v@.subrange(start as int, k as int).push(
                v@[k as int],
            ));
            assert(before.push(v@.subrange(start as int, k as int)).update(
                before.len() as int,
                v@.subrange(start as int, k + 1),
            ) =~= before.push(v@.subrange(start as int, k + 1)));
        }
        k = k + 1;
    }
    let ghost before = pieces_of(items@);
    let it = item_of_range(v, start, b1);
    items.push(it);
    assert(pieces_of(items@) =~= before.push(v@.subrange(start as int, b1 as int)));
    items
}

/// The items of the one-level list `raw`, such as `[0.1, 0.2, 0.3]`: the
/// comma separated pieces of its text once trimmed and stripped of its
/// outer brackets, none when nothing is left.
pub fn list_items(raw: &str) -> (items: Vec<ListItem>)
    ensures
        pieces_of(items@) == list_pieces(raw@),
        tokens_trimmed(items@),
{
    let v = chars_of(raw);
    let items = list_items_in(&v, 0, v.len());
    assert(v@.subrange(0, v.len() as int) =~= v@);
    items
}


/// The position of the first `]` in `v[lo..hi]`.
fn find_close(v: &Vec<char>, lo: usize, hi: usize) -> (r: Option<usize>)
    requires
        lo <= hi <= v.len(),
    ensures
        match r {
            Some(k) => lo <= k < hi && first_close(v@.subrange(lo as int, hi as int)) == Some(
                k - lo,
            ),
            None => first_close(v@.subrange(lo as int, hi as int)) is None,
        },
{
    let mut k = lo;
    while k < hi
        invariant
            lo <= k <= hi <= v.len(),
            first_close(v@.subrange(lo as int, k as int)) is None,
        decreases hi - k,
    {
        assert(v@.subrange(lo as int, k + 1).drop_last() =~= v@.subrange(lo as int, k as int));
        if v[k] == ']' {
            proof {
                let whole = v@.subrange(lo as int, hi as int);
                assert(whole.take(k + 1 - lo) =~= v@.subrange(lo as int, k + 1));
                lemma_first_close_prefix(whole, k + 1 - lo);
            }
            return Some(k);
        }
        k = k + 1;
    }
    None
}

/// `[` + `v[lo..hi]` + `]`.
fn bracket_range(v: &Vec<char>, lo: usize, hi: usize) -> (w: Vec<char>)
    requires
        lo <= hi <= v.len(),
    ensures
        w@ == bracketed(v@.subrange(lo as int, hi as int)),
{
    let mut w: Vec<char> = Vec::new();
    w.push('[');
    let mut k = lo;
    while k < hi
        invariant
            lo <= k <= hi <= v.len(),
            w@ == seq!['['] + v@.subrange(lo as int, k as int),
        decreases hi - k,
    {
        w.push(v[k]);
        assert(v@.subrange(lo as int, k + 1) =~= v@.subrange(lo as int, k as int).push(v@[k as int]));
        k = k + 1;
    }
    w.push(']');
    assert(w@ =~= bracketed(v@.subrange(lo as int, hi as int)));
    w
}

/// The items of every row of the list of lists `v[lo..hi]`.
fn rows_in(v: &Vec<char>, lo: usize, hi: usize) -> (rows: Vec<Vec<ListItem>>)
    requires
        lo + 2 <= hi <= v.len(),
    ensures
        rows@.len() == nested_rows(v@.subrange(lo as int, hi as int)).len(),
        forall|i: int|
            0 <= i < rows@.len() ==> pieces_of(#[trigger] rows@[i]@) == nested_rows(
                v@.subrange(lo as int, hi as int),
            )[i] && tokens_trimmed(rows@[i]@),
{
    let ghost s = v@.subrange(lo as int, hi as int);
    let start = lo + 1;
    let end = hi - 1;
    assert(s.subrange(1, s.len() - 1) =~= v@.subrange(start as int, end as int));
    let mut depth: i128 = 0;
    let mut current: Vec<char> = Vec::new();
    let mut rows: Vec<Vec<ListItem>> = Vec::new();
    let ghost mut texts: Seq<Seq<char>> = Seq::empty();
    let mut k = start;
    assert(v@.subrange(start as int, start as int) =~= Seq::<char>::empty());
    while k < end
        invariant
            start <= k <= end <= v.len(),
            end < usize::MAX,
            -(k - start) <= depth <= k - start,
            scan(v@.subrange(start as int, k as int)).depth == depth as int,
            scan(v@.subrange(start as int, k as int)).current == current@,
            scan(v@.subrange(start as int, k as int)).rows == texts,
            rows@.len() == texts.len(),
            forall|i: int|
                0 <= i < rows@.len() ==> pieces_of(#[trigger] rows@[i]@) == list_pieces(
                    bracketed(texts[i]),
                ) && tokens_trimmed(rows@[i]@),
        decreases end - k,
    {
        let c = v[k];
        assert(v@.subrange(start as int, k + 1).drop_last() =~= v@.subrange(
            start as int,
            k as int,
        ));
        assert(v@.subrange(start as int, k + 1).last() == c);
        if c == '[' {
            if depth == 0 {
                current = Vec::new();
                assert(current@ =~= Seq::<char>::empty());
            } else {
                current.push(c);
            }
            depth = depth + 1;
        } else if c == ']' {
            depth = depth - 1;
            if depth == 0 {
                let w = bracket_range(&current, 0, current.len());
                assert(current@.subrange(0, current@.len() as int) =~= current@);
                let row = list_items_in(&w, 0, w.len());
                assert(w@.subrange(0, w@.len() as int) =~= w@);
                rows.push(row);
                proof {
                    texts = texts.push(current@);
                }
            } else {
                current.push(c);
            }
        } else {
            current.push(c);
        }
        k = k + 1;
    }
    rows
}

/// A set of vectors as read from text, before any item is read as a number.
pub enum VectorsText {
    /// The items of a one-level list.
    Flat(Vec<ListItem>),
    /// The items of each row of a list of lists.
    Rows(Vec<Vec<ListItem>>),
}

/// The text is neither a list nor a list of lists.
pub enum VectorsTextError {
    NotAList,
}

/// The shape that a reading result stands for.
pub open spec fn shape_of(r: Result<VectorsText, VectorsTextError>) -> VectorsShape {
    match r {
        Ok(VectorsText::Flat(items)) => VectorsShape::Flat(pieces_of(items@)),
        Ok(VectorsText::Rows(rows)) => VectorsShape::Rows(
            Seq::new(rows@.len(), |i: int| pieces_of(rows@[i]@)),
        ),
        Err(_) => VectorsShape::NotAList,
    }
}

/// Every token of a reading result is its piece trimmed.
pub open spec fn result_tokens_trimmed(r: Result<VectorsText, VectorsTextError>) -> bool {
    match r {
        Ok(VectorsText::Flat(items)) => tokens_trimmed(items@),
        Ok(VectorsText::Rows(rows)) => forall|i: int|
            0 <= i < rows@.len() ==> tokens_trimmed(#[trigger] rows@[i]@),
        Err(_) => true,
    }
}

/// Reads the text of a set of vectors: one list such as `[1, 2, 3, 4]`, a
/// list of lists such as `[[1, 2], [3, 4]]`, or lists separated by commas
/// such as `[1, 2],[3, 4]` (what `string_agg` of single lists gives). See
/// [`vectors_shape`].
pub fn read_vectors_text(raw: &str) -> (r: Result<VectorsText, VectorsTextError>)
    requires
        inner_cut_ok(raw@),
    ensures
        shape_of(r) == vectors_shape(raw@),
        result_tokens_trimmed(r),
{
    let v = chars_of(raw);
    let n = v.len();
    let (a, b) = trim_range(&v, 0, n);
    let ghost s = v@.subrange(a as int, b as int);
    assert(v@.subrange(0, n as int) =~= v@);
    assert(s == trim_white(raw@));
    let opens = a < b && v[a] == '[';
    let twice = b - a >= 2 && v[a] == '[' && v[a + 1] == '[';
    assert(opens == crate::text::opens(s));
    assert(twice == opens_twice(s));
    if opens && !twice {
        let mut wrap = false;
        match find_close(&v, a, b) {
            Some(k) => {
                let (c, d) = trim_range(&v, k + 1, b);
                assert(s.subrange(k - a + 1, s.len() as int) =~= v@.subrange(k + 1, b as int));
                if c < d && v[c] == ',' {
                    wrap = true;
                }
            },
            None => {},
        }
        if wrap {
            let w = bracket_range(&v, a, b);
            let rows = rows_in(&w, 0, w.len());
            assert(w@.subrange(0, w@.len() as int) =~= w@);
            let r = Ok(VectorsText::Rows(rows));
            assert(shape_of(r) == vectors_shape(raw@)) by {
                assert(Seq::new(rows@.len(), |i: int| pieces_of(rows@[i]@)) =~= nested_rows(
                    bracketed(s),
                ));
            }
            r
        } else {
            let items = list_items_in(&v, a, b);
            Ok(VectorsText::Flat(items))
        }
    } else if !twice {
        Err(VectorsTextError::NotAList)
    } else {
        let rows = rows_in(&v, a, b);
        let r = Ok(VectorsText::Rows(rows));
        assert(shape_of(r) == vectors_shape(raw@)) by {
            assert(Seq::new(rows@.len(), |i: int| pieces_of(rows@[i]@)) =~= nested_rows(s));
        }
        r
    }
}

} // verus!
