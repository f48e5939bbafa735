//! Character-level text primitives.  Each one is specified by a spec
//! function that follows the documented behaviour of the `str` method it
//! stands for (`split`, `lines`, `split_whitespace`, `trim`, `parse`, ...).
use vstd::prelude::*;

verus! {

/// `String::push` appends one character.
pub assume_specification[ String::push ](s: &mut String, ch: char)
    ensures
        final(s)@ == old(s)@.push(ch),
;

// ---------------------------------------------------------------------------
// Specifications
// ---------------------------------------------------------------------------
/// `char::is_whitespace`: the Unicode `White_Space` property.
pub open spec fn is_ws(c: char) -> bool {
    let u = c as u32;
    ||| 0x09 <= u <= 0x0D
    ||| u == 0x20
    ||| u == 0x85
    ||| u == 0xA0
    ||| u == 0x1680
    ||| 0x2000 <= u <= 0x200A
    ||| u == 0x2028
    ||| u == 0x2029
    ||| u == 0x202F
    ||| u == 0x205F
    ||| u == 0x3000
}

pub open spec fn is_digit(c: char) -> bool {
    '0' <= c && c <= '9'
}

pub open spec fn digit_value(c: char) -> nat {
    (c as u32 - '0' as u32) as nat
}

pub open spec fn all_digits(s: Seq<char>) -> bool {
    forall|i: int| 0 <= i < s.len() ==> is_digit(#[trigger] s[i])
}

/// The number written by a sequence of decimal digits.
pub open spec fn dec_value(s: Seq<char>) -> nat
    decreases s.len(),
{
    if s.len() == 0 {
        0
    } else {
        dec_value(s.drop_last()) * 10 + digit_value(s.last())
    }
}

/// `str::parse` for an unsigned integer type whose largest value is `max`:
/// an optional `+`, then at least one decimal digit, and no overflow.
pub open spec fn parse_unsigned_spec(s: Seq<char>, max: nat) -> Option<nat> {
    let d = if s.len() > 0 && s[0] == '+' {
        s.drop_first()
    } else {
        s
    };
    if d.len() > 0 && all_digits(d) && dec_value(d) <= max {
        Some(dec_value(d))
    } else {
        None
    }
}

pub open spec fn digit_char(n: nat) -> char {
    (n + '0' as u32) as char
}

/// The decimal form of a number, as `Display` writes it for integers.
pub open spec fn dec_chars(n: nat) -> Seq<char>
    decreases n,
{
    if n < 10 {
        seq![digit_char(n)]
    } else {
        dec_chars(n / 10).push(digit_char(n % 10))
    }
}

/// `str::split` with a single-character separator.
pub open spec fn split_spec(s: Seq<char>, sep: char) -> Seq<Seq<char>>
    decreases s.len(),
{
    if s.len() == 0 {
        seq![Seq::empty()]
    } else {
        let p = split_spec(s.drop_last(), sep);
        if s.last() == sep {
            p.push(Seq::empty())
        } else {
            p.update(p.len() - 1, p.last().push(s.last()))
        }
    }
}

pub open spec fn strip_cr(l: Seq<char>) -> Seq<char> {
    if l.len() > 0 && l.last() == '\r' {
        l.drop_last()
    } else {
        l
    }
}

/// `str::lines`: pieces ended by `\n` (a `\r` before it is dropped); a
/// final empty piece is not a line.
pub open spec fn lines_spec(s: Seq<char>) -> Seq<Seq<char>> {
    let p = split_spec(s, '\n');
    let init = p.drop_last().map_values(|l: Seq<char>| strip_cr(l));
    if p.last().len() == 0 {
        init
    } else {
        init.push(p.last())
    }
}

/// State of a left-to-right scan for `split_whitespace`: finished words and
/// the word under construction.
pub open spec fn words_scan(s: Seq<char>) -> (Seq<Seq<char>>, Seq<char>)
    decreases s.len(),
{
    if s.len() == 0 {
        (Seq::empty(), Seq::empty())
    } else {
        let (w, cur) = words_scan(s.drop_last());
        if is_ws(s.last()) {
            if cur.len() > 0 {
                (w.push(cur), Seq::empty())
            } else {
                (w, cur)
            }
        } else {
            (w, cur.push(s.last()))
        }
    }
}

/// `str::split_whitespace`.
pub open spec fn words_spec(s: Seq<char>) -> Seq<Seq<char>> {
    let (w, cur) = words_scan(s);
    if cur.len() > 0 {
        w.push(cur)
    } else {
        w
    }
}

pub open spec fn trim_start_spec(s: Seq<char>) -> Seq<char>
    decreases s.len(),
{
    if s.len() > 0 && is_ws(s[0]) {
        trim_start_spec(s.drop_first())
    } else {
        s
    }
}

pub open spec fn trim_end_spec(s: Seq<char>) -> Seq<char>
    decreases s.len(),
{
    if s.len() > 0 && is_ws(s.last()) {
        trim_end_spec(s.drop_last())
    } else {
        s
    }
}

/// `str::trim`.
pub open spec fn trim_spec(s: Seq<char>) -> Seq<char> {
    trim_end_spec(trim_start_spec(s))
}

pub open spec fn starts_with_spec(s: Seq<char>, p: Seq<char>) -> bool {
    p.len() <= s.len() && s.take(p.len() as int) == p
}

pub open spec fn ends_with_spec(s: Seq<char>, p: Seq<char>) -> bool {
    p.len() <= s.len() && s.skip(s.len() - p.len()) == p
}

/// The sequence occurs somewhere inside `s`.
pub open spec fn contains_spec(s: Seq<char>, needle: Seq<char>) -> bool {
    exists|i: int| 0 <= i <= s.len() - needle.len() && #[trigger] s.subrange(i, i + needle.len()) == needle
}

/// Index of the first occurrence of `c`.
pub open spec fn first_index(s: Seq<char>, c: char) -> Option<int> {
    if exists|i: int| 0 <= i < s.len() && s[i] == c {
        let i = choose|i: int| 0 <= i < s.len() && s[i] == c && forall|j: int| 0 <= j < i ==> s[j] != c;
        Some(i)
    } else {
        None
    }
}

pub open spec fn is_first_index(s: Seq<char>, c: char, i: int) -> bool {
    0 <= i < s.len() && s[i] == c && forall|j: int| 0 <= j < i ==> s[j] != c
}

pub open spec fn is_last_index(s: Seq<char>, c: char, i: int) -> bool {
    0 <= i < s.len() && s[i] == c && forall|j: int| i < j < s.len() ==> s[j] != c
}

pub open spec fn ascii_lower(c: char) -> char {
    if 'A' <= c && c <= 'Z' {
        ((c as u32) + 32) as char
    } else {
        c
    }
}

/// `str::eq_ignore_ascii_case`.
pub open spec fn eq_ignore_ascii_case_spec(a: Seq<char>, b: Seq<char>) -> bool {
    a.len() == b.len() && forall|i: int| 0 <= i < a.len() ==> ascii_lower(#[trigger] a[i])
        == ascii_lower(b[i])
}

/// The views of a sequence of character vectors.
pub open spec fn views(v: Seq<Vec<char>>) -> Seq<Seq<char>> {
    v.map_values(|x: Vec<char>| x@)
}

/// The view of an optional string.
pub open spec fn opt_view(o: Option<String>) -> Option<Seq<char>> {
    match o {
        Some(s) => Some(s@),
        None => None,
    }
}

pub open spec fn string_views(v: Seq<String>) -> Seq<Seq<char>> {
    v.map_values(|x: String| x@)
}


/// `[String]::join` with a one-character separator.
pub open spec fn join_spec(list: Seq<Seq<char>>, sep: char) -> Seq<char>
    decreases list.len(),
{
    if list.len() == 0 {
        Seq::empty()
    } else if list.len() == 1 {
        list[0]
    } else {
        join_spec(list.drop_last(), sep) + seq![sep] + list.last()
    }
}

/// The lines of a text that are not empty (`lines().filter(|l| !l.is_empty())`).
pub open spec fn nonempty_lines_spec(s: Seq<char>) -> Seq<Seq<char>> {
    lines_spec(s).filter(|l: Seq<char>| l.len() > 0)
}

pub open spec fn has_char(s: Seq<char>, c: char) -> bool {
    exists|i: int| 0 <= i < s.len() && s[i] == c
}


/// Index of the last occurrence of `c`.
pub open spec fn last_index(s: Seq<char>, c: char) -> Option<int> {
    if exists|i: int| 0 <= i < s.len() && s[i] == c {
        let i = choose|i: int| is_last_index(s, c, i);
        Some(i)
    } else {
        None
    }
}

/// `str::trim_start_matches` with a string pattern: the pattern is removed
/// from the front as long as it is there.
pub open spec fn trim_start_matches_spec(s: Seq<char>, p: Seq<char>) -> Seq<char>
    decreases s.len(),
{
    if p.len() > 0 && starts_with_spec(s, p) {
        trim_start_matches_spec(s.skip(p.len() as int), p)
    } else {
        s
    }
}

pub open spec fn is_bracket(c: char) -> bool {
    c == '[' || c == ']'
}

pub open spec fn trim_brackets_start(s: Seq<char>) -> Seq<char>
    decreases s.len(),
{
    if s.len() > 0 && is_bracket(s[0]) {
        trim_brackets_start(s.drop_first())
    } else {
        s
    }
}

pub open spec fn trim_brackets_end(s: Seq<char>) -> Seq<char>
    decreases s.len(),
{
    if s.len() > 0 && is_bracket(s.last()) {
        trim_brackets_end(s.drop_last())
    } else {
        s
    }
}

/// `str::trim_matches(['[', ']'])`.
pub open spec fn trim_brackets_spec(s: Seq<char>) -> Seq<char> {
    trim_brackets_end(trim_brackets_start(s))
}

/// `str::trim_end_matches('.')`.
pub open spec fn trim_end_dots_spec(s: Seq<char>) -> Seq<char>
    decreases s.len(),
{
    if s.len() > 0 && s.last() == '.' {
        trim_end_dots_spec(s.drop_last())
    } else {
        s
    }
}

/// The first element for which `f` gives a value.
pub open spec fn first_match(ls: Seq<Seq<char>>, f: spec_fn(Seq<char>) -> Option<Seq<char>>) -> Option<
    Seq<char>,
>
    decreases ls.len(),
{
    if ls.len() == 0 {
        None
    } else {
        match f(ls[0]) {
            Some(x) => Some(x),
            None => first_match(ls.drop_first(), f),
        }
    }
}


/// `p` occurs in `s` at index `i`.
pub open spec fn occurs_at(s: Seq<char>, p: Seq<char>, i: int) -> bool {
    0 <= i && i + p.len() <= s.len() && s.subrange(i, i + p.len()) == p
}

/// Index of the first occurrence of `p` in `s` (`str::find` with a string
/// pattern).
pub open spec fn first_occurrence(s: Seq<char>, p: Seq<char>) -> Option<int> {
    if exists|i: int| occurs_at(s, p, i) {
        Some(choose|i: int| occurs_at(s, p, i) && forall|j: int| 0 <= j < i ==> !occurs_at(s, p, j))
    } else {
        None
    }
}

// ---------------------------------------------------------------------------
// Lemmas
// ---------------------------------------------------------------------------
/// A split always has at least one piece.
pub proof fn lemma_split_nonempty(s: Seq<char>, sep: char)
    ensures
        split_spec(s, sep).len() >= 1,
    decreases s.len(),
{
    if s.len() > 0 {
        lemma_split_nonempty(s.drop_last(), sep);
    }
}

/// A prefix of a digit string has no larger value.
pub proof fn lemma_dec_value_prefix(s: Seq<char>, k: int)
    requires
        0 <= k <= s.len(),
    ensures
        dec_value(s.take(k)) <= dec_value(s),
    decreases s.len(),
{
    if k < s.len() {
        lemma_dec_value_prefix(s.drop_last(), k);
        assert(s.drop_last().take(k) == s.take(k));
    } else {
        assert(s.take(k) == s);
    }
}


/// Splitting after appending a piece free of the separator extends the last
/// field.
pub proof fn lemma_split_append_plain(a: Seq<char>, b: Seq<char>, sep: char)
    requires
        !has_char(b, sep),
    ensures
        split_spec(a + b, sep) == split_spec(a, sep).update(
            split_spec(a, sep).len() - 1,
            split_spec(a, sep).last() + b,
        ),
    decreases b.len(),
{
    lemma_split_nonempty(a, sep);
    if b.len() == 0 {
        assert(a + b == a);
        assert(split_spec(a, sep).last() + b == split_spec(a, sep).last());
        assert(split_spec(a, sep).update(split_spec(a, sep).len() - 1, split_spec(a, sep).last())
            =~= split_spec(a, sep));
    } else {
        let b1 = b.drop_last();
        assert(!has_char(b1, sep)) by {
            if has_char(b1, sep) {
                let i = choose|i: int| 0 <= i < b1.len() && b1[i] == sep;
                assert(b[i] == sep);
            }
        }
        lemma_split_append_plain(a, b1, sep);
        assert((a + b).drop_last() == a + b1);
        assert((a + b).last() == b.last());
        assert(b.last() != sep);
        lemma_split_nonempty(a + b1, sep);
        let p = split_spec(a, sep);
        let q = split_spec(a + b1, sep);
        assert(q.len() == p.len());
        assert(q.last() == p.last() + b1);
        assert((p.last() + b1).push(b.last()) =~= p.last() + b);
        assert(split_spec(a + b, sep) == q.update(q.len() - 1, q.last().push(b.last())));
        assert(split_spec(a + b, sep) =~= split_spec(a, sep).update(
            split_spec(a, sep).len() - 1,
            split_spec(a, sep).last() + b,
        ));
    }
}

/// No piece of a split holds the separator, nor a character the text does
/// not hold.
pub proof fn lemma_split_pieces_avoid(s: Seq<char>, sep: char, c: char)
    requires
        c == sep || !has_char(s, c),
    ensures
        forall|i: int| 0 <= i < split_spec(s, sep).len() ==> !has_char(#[trigger] split_spec(s, sep)[i], c),
    decreases s.len(),
{
    if s.len() > 0 {
        let d = s.drop_last();
        if c != sep {
            assert(!has_char(d, c)) by {
                if has_char(d, c) {
                    let k = choose|k: int| 0 <= k < d.len() && d[k] == c;
                    assert(s[k] == c);
                }
            }
        }
        lemma_split_pieces_avoid(d, sep, c);
        lemma_split_nonempty(d, sep);
        let p = split_spec(d, sep);
        if s.last() != sep {
            let q = p.last().push(s.last());
            assert(s.last() != c) by {
                if c != sep {
                    assert(s[s.len() - 1] == s.last());
                }
            }
            assert(!has_char(p[p.len() - 1], c));
            assert(!has_char(q, c)) by {
                if has_char(q, c) {
                    let k = choose|k: int| 0 <= k < q.len() && q[k] == c;
                    if k < q.len() - 1 {
                        assert(p.last()[k] == c);
                    }
                }
            }
            assert forall|i: int| 0 <= i < split_spec(s, sep).len() implies !has_char(
                #[trigger] split_spec(s, sep)[i],
                c,
            ) by {
                if i < p.len() - 1 {
                    assert(split_spec(s, sep)[i] == p[i]);
                } else {
                    assert(split_spec(s, sep)[i] == q);
                }
            }
        } else {
            assert forall|i: int| 0 <= i < split_spec(s, sep).len() implies !has_char(
                #[trigger] split_spec(s, sep)[i],
                c,
            ) by {
                if i < p.len() {
                    assert(split_spec(s, sep)[i] == p[i]);
                } else {
                    assert(split_spec(s, sep)[i] == Seq::<char>::empty());
                }
            }
        }
    }
}

/// No line of a text holds a line feed, nor a character the text does not
/// hold.
pub proof fn lemma_lines_avoid(s: Seq<char>, c: char)
    requires
        c == '\n' || !has_char(s, c),
    ensures
        forall|i: int| 0 <= i < lines_spec(s).len() ==> !has_char(#[trigger] lines_spec(s)[i], c),
{
    lemma_split_pieces_avoid(s, '\n', c);
    lemma_split_nonempty(s, '\n');
    let p = split_spec(s, '\n');
    assert forall|i: int| 0 <= i < lines_spec(s).len() implies !has_char(
        #[trigger] lines_spec(s)[i],
        c,
    ) by {
        assert(!has_char(p[i], c));
        if i < p.len() - 1 {
            let l = strip_cr(p[i]);
            assert(lines_spec(s)[i] == l);
            if has_char(l, c) {
                let k = choose|k: int| 0 <= k < l.len() && l[k] == c;
                assert(p[i][k] == c);
            }
        } else {
            assert(lines_spec(s)[i] == p[i]);
        }
    }
}

/// Splitting two texts joined by the separator gives the pieces of the
/// first followed by the pieces of the second.
pub proof fn lemma_split_concat(x: Seq<char>, y: Seq<char>, sep: char)
    ensures
        split_spec(x + seq![sep] + y, sep) == split_spec(x, sep) + split_spec(y, sep),
    decreases y.len(),
{
    let s = x + seq![sep] + y;
    if y.len() == 0 {
        assert(s.drop_last() =~= x);
        assert(split_spec(y, sep) == seq![Seq::<char>::empty()]);
        assert(split_spec(s, sep) =~= split_spec(x, sep) + split_spec(y, sep));
    } else {
        let y1 = y.drop_last();
        lemma_split_concat(x, y1, sep);
        lemma_split_nonempty(y1, sep);
        lemma_split_nonempty(x, sep);
        assert(s.drop_last() =~= x + seq![sep] + y1);
        assert(s.last() == y.last());
        let p1 = split_spec(x, sep);
        let q = split_spec(y1, sep);
        if y.last() == sep {
            assert(split_spec(s, sep) =~= p1 + q.push(Seq::empty()));
        } else {
            assert((p1 + q).update((p1 + q).len() - 1, (p1 + q).last().push(y.last())) =~= p1
                + q.update(q.len() - 1, q.last().push(y.last())));
        }
        assert(split_spec(s, sep) =~= split_spec(x, sep) + split_spec(y, sep));
    }
}

/// The lines of two texts joined by a line feed: the pieces of the first
/// (each without a final carriage return) followed by the lines of the
/// second.
pub proof fn lemma_lines_concat(a: Seq<char>, b: Seq<char>)
    ensures
        lines_spec(a + seq!['\n'] + b) == split_spec(a, '\n').map_values(|l: Seq<char>| strip_cr(l))
            + lines_spec(b),
{
    lemma_split_concat(a, b, '\n');
    lemma_split_nonempty(b, '\n');
    let pa = split_spec(a, '\n');
    let pb = split_spec(b, '\n');
    let p = pa + pb;
    assert(p.drop_last() =~= pa + pb.drop_last());
    assert(p.last() == pb.last());
    assert(p.drop_last().map_values(|l: Seq<char>| strip_cr(l)) =~= pa.map_values(
        |l: Seq<char>| strip_cr(l),
    ) + pb.drop_last().map_values(|l: Seq<char>| strip_cr(l)));
    if pb.last().len() == 0 {
        assert(lines_spec(a + seq!['\n'] + b) =~= pa.map_values(|l: Seq<char>| strip_cr(l))
            + lines_spec(b));
    } else {
        assert(lines_spec(a + seq!['\n'] + b) =~= pa.map_values(|l: Seq<char>| strip_cr(l))
            + lines_spec(b));
    }
}

/// Splitting a joined list gives the list back when no element holds the
/// separator.
pub proof fn lemma_split_join(list: Seq<Seq<char>>, sep: char)
    requires
        list.len() > 0,
        forall|i: int| 0 <= i < list.len() ==> !has_char(#[trigger] list[i], sep),
    ensures
        split_spec(join_spec(list, sep), sep) == list,
    decreases list.len(),
{
    if list.len() == 1 {
        lemma_split_append_plain(Seq::empty(), list[0], sep);
        assert(Seq::<char>::empty() + list[0] == list[0]);
        assert(split_spec(Seq::<char>::empty(), sep) == seq![Seq::<char>::empty()]);
        assert(split_spec(list[0], sep) =~= list);
    } else {
        let init = list.drop_last();
        lemma_split_join(init, sep);
        let j = join_spec(init, sep);
        let js = j + seq![sep];
        assert(js.drop_last() == j);
        assert(split_spec(js, sep) == split_spec(j, sep).push(Seq::empty()));
        lemma_split_append_plain(js, list.last(), sep);
        assert(join_spec(list, sep) == js + list.last());
        assert(split_spec(join_spec(list, sep), sep) =~= list);
    }
}

/// Joining lines with `\n` and reading the non-empty lines back gives the
/// list, when no element is empty, holds `\n` or ends with `\r`.
pub proof fn lemma_lines_join(list: Seq<Seq<char>>)
    requires
        forall|i: int| 0 <= i < list.len() ==> (#[trigger] list[i]).len() > 0 && !has_char(
            list[i],
            '\n',
        ) && list[i].last() != '\r',
    ensures
        nonempty_lines_spec(join_spec(list, '\n')) == list,
{
    let t = join_spec(list, '\n');
    if list.len() == 0 {
        assert(split_spec(t, '\n') == seq![Seq::<char>::empty()]);
        assert(lines_spec(t) =~= Seq::<Seq<char>>::empty());
        assert(nonempty_lines_spec(t) =~= list);
    } else {
        lemma_split_join(list, '\n');
        let p = split_spec(t, '\n');
        assert(p.drop_last().map_values(|l: Seq<char>| strip_cr(l)) =~= list.drop_last());
        assert(lines_spec(t) =~= list);
        assert(list.filter(|l: Seq<char>| l.len() > 0) =~= list) by {
            lemma_filter_all(list);
        }
    }
}

/// Keeping the non-empty elements of a list without empty ones keeps all.
proof fn lemma_filter_all(list: Seq<Seq<char>>)
    requires
        forall|i: int| 0 <= i < list.len() ==> (#[trigger] list[i]).len() > 0,
    ensures
        list.filter(|l: Seq<char>| l.len() > 0) == list,
    decreases list.len(),
{
    reveal(Seq::filter);
    if list.len() > 0 {
        lemma_filter_all(list.drop_last());
        assert(list.drop_last().push(list.last()) == list);
    }
}


/// The first index at which `p` occurs is what [`first_occurrence`] gives.
pub proof fn lemma_first_occurrence(s: Seq<char>, p: Seq<char>, i: int)
    requires
        occurs_at(s, p, i),
        forall|k: int| 0 <= k < i ==> !occurs_at(s, p, k),
    ensures
        first_occurrence(s, p) == Some(i),
{
    let c = choose|c: int| occurs_at(s, p, c) && forall|j: int| 0 <= j < c ==> !occurs_at(s, p, j);
    assert(occurs_at(s, p, c));
    if c < i {
        assert(!occurs_at(s, p, c));
    } else if c > i {
        assert(!occurs_at(s, p, i));
    }
}

// ---------------------------------------------------------------------------
// Executable functions
// ---------------------------------------------------------------------------
/// Collects the characters of a string slice.
pub fn chars_of(s: &str) -> (v: Vec<char>)
    ensures
        v@ == s@,
{
    let mut v: Vec<char> = Vec::new();
    for c in it: s.chars()
        invariant
            v@ == it.seq().take(it.index() as int),
            it.seq() == s@,
    {
        v.push(c);
    }
    v
}

/// Builds a `String` from characters.
pub fn string_of(v: &[char]) -> (s: String)
    ensures
        s@ == v@,
{
    let mut s = String::new();
    let mut i: usize = 0;
    while i < v.len()
        invariant
            i <= v.len(),
            s@ == v@.take(i as int),
        decreases v.len() - i,
    {
        s.push(v[i]);
        i = i + 1;
        assert(v@.take(i as int) == v@.take(i - 1).push(v@[i - 1]));
    }
    assert(v@.take(v.len() as int) == v@);
    s
}

/// Copies `s[a..b]`.
pub fn sub_chars(s: &[char], a: usize, b: usize) -> (r: Vec<char>)
    requires
        a <= b <= s.len(),
    ensures
        r@ == s@.subrange(a as int, b as int),
{
    let mut r: Vec<char> = Vec::new();
    let mut i = a;
    while i < b
        invariant
            a <= i <= b <= s.len(),
            r@ == s@.subrange(a as int, i as int),
        decreases b - i,
    {
        r.push(s[i]);
        i = i + 1;
        assert(s@.subrange(a as int, i as int) == s@.subrange(a as int, i - 1).push(s@[i - 1]));
    }
    r
}

/// Concatenation of two character sequences.
pub fn concat_chars(a: &[char], b: &[char]) -> (r: Vec<char>)
    ensures
        r@ == a@ + b@,
{
    let mut r = sub_chars(a, 0, a.len());
    assert(a@.subrange(0, a@.len() as int) == a@);
    let mut i: usize = 0;
    while i < b.len()
        invariant
            i <= b.len(),
            r@ == a@ + b@.take(i as int),
        decreases b.len() - i,
    {
        r.push(b[i]);
        i = i + 1;
        assert(a@ + b@.take(i as int) == (a@ + b@.take(i - 1)).push(b@[i - 1]));
    }
    assert(b@.take(b.len() as int) == b@);
    r
}

/// `char::is_whitespace`.
pub fn is_whitespace(c: char) -> (b: bool)
    ensures
        b == is_ws(c),
{
    let u = c as u32;
    (0x09 <= u && u <= 0x0D) || u == 0x20 || u == 0x85 || u == 0xA0 || u == 0x1680 || (0x2000
        <= u && u <= 0x200A) || u == 0x2028 || u == 0x2029 || u == 0x202F || u == 0x205F || u
        == 0x3000
}

/// `str::split` on a single character.
pub fn split_chars(s: &[char], sep: char) -> (r: Vec<Vec<char>>)
    ensures
        views(r@) == split_spec(s@, sep),
{
    let mut done: Vec<Vec<char>> = Vec::new();
    let mut cur: Vec<char> = Vec::new();
    let mut i: usize = 0;
    while i < s.len()
        invariant
            i <= s.len(),
            views(done@).push(cur@) == split_spec(s@.take(i as int), sep),
        decreases s.len() - i,
    {
        let ghost pre = s@.take(i as int);
        assert(s@.take(i + 1).drop_last() == pre);
        proof {
            lemma_split_nonempty(pre, sep);
        }
        if s[i] == sep {
            let finished = cur;
            done.push(finished);
            cur = Vec::new();
            assert(views(done@) == views(done@.drop_last()).push(finished@));
        } else {
            cur.push(s[i]);
        }
        i = i + 1;
        assert(views(done@).push(cur@) =~= split_spec(s@.take(i as int), sep));
    }
    let ghost final_cur = cur@;
    done.push(cur);
    assert(s@.take(s.len() as int) == s@);
    assert(views(done@) =~= views(done@.drop_last()).push(final_cur));
    done
}

/// `str::lines`.
pub fn lines(s: &[char]) -> (r: Vec<Vec<char>>)
    ensures
        views(r@) == lines_spec(s@),
{
    let pieces = split_chars(s, '\n');
    proof {
        lemma_split_nonempty(s@, '\n');
    }
    let n = pieces.len();
    let mut out: Vec<Vec<char>> = Vec::new();
    let mut i: usize = 0;
    let ghost ps = views(pieces@);
    while i + 1 < n
        invariant
            n == pieces.len() >= 1,
            i < n,
            ps == views(pieces@),
            ps == split_spec(s@, '\n'),
            views(out@) == ps.take(i as int).map_values(|l: Seq<char>| strip_cr(l)),
        decreases n - i,
    {
        let p = &pieces[i];
        assert(ps[i as int] == p@);
        let stripped = if p.len() > 0 && p[p.len() - 1] == '\r' {
            assert(p@.drop_last() == p@.subrange(0, p@.len() - 1));
            sub_chars(p, 0, p.len() - 1)
        } else {
            assert(p@.subrange(0, p@.len() as int) == p@);
            sub_chars(p, 0, p.len())
        };
        assert(stripped@ == strip_cr(p@));
        let ghost before = views(out@);
        out.push(stripped);
        assert(views(out@) =~= before.push(stripped@));
        assert(ps.take(i + 1) =~= ps.take(i as int).push(ps[i as int]));
        i = i + 1;
        assert(views(out@) =~= ps.take(i as int).map_values(|l: Seq<char>| strip_cr(l)));
    }
    assert(views(pieces@).take(i as int) == split_spec(s@, '\n').drop_last());
    let last = &pieces[n - 1];
    if last.len() > 0 {
        let copy = sub_chars(last, 0, last.len());
        assert(last@.subrange(0, last@.len() as int) == last@);
        out.push(copy);
        assert(views(out@) =~= lines_spec(s@));
    } else {
        assert(views(out@) =~= lines_spec(s@));
    }
    out
}

/// `str::split_whitespace`.
pub fn words(s: &[char]) -> (r: Vec<Vec<char>>)
    ensures
        views(r@) == words_spec(s@),
{
    let mut done: Vec<Vec<char>> = Vec::new();
    let mut cur: Vec<char> = Vec::new();
    let mut i: usize = 0;
    while i < s.len()
        invariant
            i <= s.len(),
            (views(done@), cur@) == words_scan(s@.take(i as int)),
        decreases s.len() - i,
    {
        assert(s@.take(i + 1).drop_last() == s@.take(i as int));
        if is_whitespace(s[i]) {
            if cur.len() > 0 {
                let finished = cur;
                done.push(finished);
                cur = Vec::new();
                assert(views(done@) =~= views(done@.drop_last()).push(finished@));
            }
        } else {
            cur.push(s[i]);
        }
        i = i + 1;
        assert((views(done@), cur@) == words_scan(s@.take(i as int)));
    }
    assert(s@.take(s.len() as int) == s@);
    if cur.len() > 0 {
        let ghost c = cur@;
        done.push(cur);
        assert(views(done@) =~= views(done@.drop_last()).push(c));
    }
    done
}

/// `str::trim_start`.
pub fn trim_start(s: &[char]) -> (r: Vec<char>)
    ensures
        r@ == trim_start_spec(s@),
{
    let mut i: usize = 0;
    assert(s@.skip(0) == s@);
    while i < s.len() && is_whitespace(s[i])
        invariant
            i <= s.len(),
            trim_start_spec(s@) == trim_start_spec(s@.skip(i as int)),
        decreases s.len() - i,
    {
        assert(s@.skip(i as int).drop_first() == s@.skip(i + 1));
        i = i + 1;
    }
    assert(s@.skip(i as int) == s@.subrange(i as int, s.len() as int));
    sub_chars(s, i, s.len())
}

/// `str::trim_end`.
pub fn trim_end(s: &[char]) -> (r: Vec<char>)
    ensures
        r@ == trim_end_spec(s@),
{
    let mut j: usize = s.len();
    assert(s@.take(s.len() as int) == s@);
    while j > 0 && is_whitespace(s[j - 1])
        invariant
            j <= s.len(),
            trim_end_spec(s@) == trim_end_spec(s@.take(j as int)),
        decreases j,
    {
        assert(s@.take(j as int).drop_last() == s@.take(j - 1));
        j = j - 1;
    }
    assert(s@.take(j as int) == s@.subrange(0, j as int));
    sub_chars(s, 0, j)
}

/// `str::trim`.
pub fn trim(s: &[char]) -> (r: Vec<char>)
    ensures
        r@ == trim_spec(s@),
{
    let a = trim_start(s);
    trim_end(&a)
}

/// `str::starts_with`.
pub fn starts_with(s: &[char], p: &[char]) -> (b: bool)
    ensures
        b == starts_with_spec(s@, p@),
{
    if p.len() > s.len() {
        return false;
    }
    let mut i: usize = 0;
    while i < p.len()
        invariant
            p.len() <= s.len(),
            i <= p.len(),
            forall|j: int| 0 <= j < i ==> s@[j] == p@[j],
        decreases p.len() - i,
    {
        if s[i] != p[i] {
            assert(s@.take(p.len() as int)[i as int] != p@[i as int]);
            return false;
        }
        i = i + 1;
    }
    assert(s@.take(p.len() as int) =~= p@);
    true
}

/// `str::ends_with`.
pub fn ends_with(s: &[char], p: &[char]) -> (b: bool)
    ensures
        b == ends_with_spec(s@, p@),
{
    if p.len() > s.len() {
        return false;
    }
    let off = s.len() - p.len();
    let mut i: usize = 0;
    while i < p.len()
        invariant
            p.len() <= s.len(),
            off == s.len() - p.len(),
            i <= p.len(),
            forall|j: int| 0 <= j < i ==> s@[off + j] == p@[j],
        decreases p.len() - i,
    {
        if s[off + i] != p[i] {
            assert(s@.skip(off as int)[i as int] != p@[i as int]);
            return false;
        }
        i = i + 1;
    }
    assert(s@.skip(off as int) =~= p@);
    true
}

/// Whether `needle` occurs in `s` (`str::contains` with a string pattern).
pub fn contains_chars(s: &[char], needle: &[char]) -> (b: bool)
    ensures
        b == contains_spec(s@, needle@),
{
    if needle.len() > s.len() {
        return false;
    }
    if needle.len() == 0 {
        assert(s@.subrange(0int, 0int + needle@.len()) =~= needle@);
        return true;
    }
    let last = s.len() - needle.len();
    let mut i: usize = 0;
    while i <= last
        invariant
            1 <= needle.len() <= s.len(),
            last == s.len() - needle.len(),
            i <= last + 1,
            forall|k: int| 0 <= k < i ==> #[trigger] s@.subrange(k, k + needle.len()) != needle@,
        decreases last + 1 - i,
    {
        let mut j: usize = 0;
        let mut matched = true;
        while j < needle.len()
            invariant
                i <= last,
                last == s.len() - needle.len(),
                j <= needle.len(),
                matched ==> forall|m: int| 0 <= m < j ==> s@[i + m] == needle@[m],
                !matched ==> s@.subrange(i as int, i + needle.len()) != needle@,
            decreases needle.len() - j,
        {
            if s[i + j] != needle[j] {
                assert(s@.subrange(i as int, i + needle.len())[j as int] != needle@[j as int]);
                matched = false;
            }
            j = j + 1;
        }
        if matched {
            assert(s@.subrange(i as int, i + needle.len()) =~= needle@);
            return true;
        }
        i = i + 1;
    }
    assert forall|k: int| 0 <= k <= s.len() - needle.len() implies #[trigger] s@.subrange(
        k,
        k + needle.len(),
    ) != needle@ by {}
    false
}

/// Index of the first occurrence of `c`.
pub fn find_char(s: &[char], c: char) -> (r: Option<usize>)
    ensures
        match r {
            Some(i) => is_first_index(s@, c, i as int),
            None => forall|j: int| 0 <= j < s.len() ==> s@[j] != c,
        },
{
    let mut i: usize = 0;
    while i < s.len()
        invariant
            i <= s.len(),
            forall|j: int| 0 <= j < i ==> s@[j] != c,
        decreases s.len() - i,
    {
        if s[i] == c {
            return Some(i);
        }
        i = i + 1;
    }
    None
}

/// Index of the last occurrence of `c`.
pub fn rfind_char(s: &[char], c: char) -> (r: Option<usize>)
    ensures
        match r {
            Some(i) => is_last_index(s@, c, i as int),
            None => forall|j: int| 0 <= j < s.len() ==> s@[j] != c,
        },
{
    let mut i: usize = s.len();
    while i > 0
        invariant
            i <= s.len(),
            forall|j: int| i <= j < s.len() ==> s@[j] != c,
        decreases i,
    {
        if s[i - 1] == c {
            return Some(i - 1);
        }
        i = i - 1;
    }
    None
}

/// `str::parse` into an unsigned integer type whose largest value is `max`.
pub fn parse_unsigned(s: &[char], max: u64) -> (r: Option<u64>)
    requires
        max <= u32::MAX,
    ensures
        match parse_unsigned_spec(s@, max as nat) {
            Some(v) => r == Some(v as u64),
            None => r is None,
        },
{
    let start: usize = if s.len() > 0 && s[0] == '+' {
        1
    } else {
        0
    };
    let ghost d = if s@.len() > 0 && s@[0] == '+' {
        s@.drop_first()
    } else {
        s@
    };
    assert(d == s@.skip(start as int));
    if start >= s.len() {
        return None;
    }
    let mut acc: u64 = 0;
    let mut i = start;
    while i < s.len()
        invariant
            start <= i <= s.len(),
            d == s@.skip(start as int),
            d == (if s@.len() > 0 && s@[0] == '+' {
                s@.drop_first()
            } else {
                s@
            }),
            max <= u32::MAX,
            acc == dec_value(d.take(i - start)),
            acc <= max,
            all_digits(d.take(i - start)),
        decreases s.len() - i,
    {
        let c = s[i];
        assert(d.take(i - start + 1).drop_last() == d.take(i - start));
        assert(d[i - start] == c);
        if c < '0' || c > '9' {
            assert(!is_digit(d[i - start]));
            assert(!all_digits(d));
            assert(parse_unsigned_spec(s@, max as nat) is None);
            return None;
        }
        let dv = (c as u32 - '0' as u32) as u64;
        assert(d.take(i - start + 1).last() == c);
        assert(digit_value(c) == dv);
        acc = acc * 10 + dv;
        assert(acc == dec_value(d.take(i - start + 1)));
        if acc > max {
            proof {
                lemma_dec_value_prefix(d, i - start + 1);
                assert(dec_value(d) > max);
            }
            assert(parse_unsigned_spec(s@, max as nat) is None);
            return None;
        }
        i = i + 1;
        assert forall|k: int| 0 <= k < d.take(i - start).len() implies is_digit(
            #[trigger] d.take(i - start)[k],
        ) by {
            if k < i - start - 1 {
                assert(d.take(i - start)[k] == d.take(i - start - 1)[k]);
            }
        }
    }
    assert(d.take(i - start) == d);
    Some(acc)
}

/// The decimal form of `n`.
pub fn dec_string(n: u64) -> (r: Vec<char>)
    ensures
        r@ == dec_chars(n as nat),
    decreases n,
{
    if n < 10 {
        let mut r: Vec<char> = Vec::new();
        r.push(((n as u8) + 48u8) as char);
        assert(r@ =~= dec_chars(n as nat));
        r
    } else {
        let mut r = dec_string(n / 10);
        r.push((((n % 10) as u8) + 48u8) as char);
        r
    }
}

/// `str::eq_ignore_ascii_case`.
pub fn eq_ignore_ascii_case(a: &[char], b: &[char]) -> (r: bool)
    ensures
        r == eq_ignore_ascii_case_spec(a@, b@),
{
    if a.len() != b.len() {
        return false;
    }
    let mut i: usize = 0;
    while i < a.len()
        invariant
            a.len() == b.len(),
            i <= a.len(),
            forall|j: int| 0 <= j < i ==> ascii_lower(#[trigger] a@[j]) == ascii_lower(b@[j]),
        decreases a.len() - i,
    {
        let x = a[i];
        let y = b[i];
        let lx = if 'A' <= x && x <= 'Z' {
            ((x as u8) + 32u8) as char
        } else {
            x
        };
        let ly = if 'A' <= y && y <= 'Z' {
            ((y as u8) + 32u8) as char
        } else {
            y
        };
        if lx != ly {
            return false;
        }
        i = i + 1;
    }
    true
}


/// Equality of two character sequences.
pub fn chars_eq(a: &[char], b: &[char]) -> (r: bool)
    ensures
        r == (a@ == b@),
{
    if a.len() != b.len() {
        return false;
    }
    let mut i: usize = 0;
    while i < a.len()
        invariant
            a.len() == b.len(),
            i <= a.len(),
            forall|j: int| 0 <= j < i ==> a@[j] == b@[j],
        decreases a.len() - i,
    {
        if a[i] != b[i] {
            return false;
        }
        i = i + 1;
    }
    assert(a@ =~= b@);
    true
}

/// `[String]::join` with a one-character separator.
pub fn join_strings(list: &[String], sep: char) -> (r: String)
    ensures
        r@ == join_spec(string_views(list@), sep),
{
    let ghost l = string_views(list@);
    let mut out = String::new();
    let mut i: usize = 0;
    while i < list.len()
        invariant
            i <= list.len(),
            l == string_views(list@),
            out@ == join_spec(l.take(i as int), sep),
        decreases list.len() - i,
    {
        let piece = chars_of_string(&list[i]);
        assert(l.take(i + 1).drop_last() == l.take(i as int));
        assert(l.take(i + 1).last() == piece@);
        if i > 0 {
            out.push(sep);
        }
        let ghost before = out@;
        let mut k: usize = 0;
        while k < piece.len()
            invariant
                k <= piece.len(),
                out@ == before + piece@.take(k as int),
            decreases piece.len() - k,
        {
            out.push(piece[k]);
            k = k + 1;
            assert(before + piece@.take(k as int) == (before + piece@.take(k - 1)).push(
                piece@[k - 1],
            ));
        }
        assert(piece@.take(piece.len() as int) == piece@);
        i = i + 1;
        assert(out@ =~= join_spec(l.take(i as int), sep));
    }
    assert(l.take(list.len() as int) == l);
    out
}

/// The non-empty lines of a text, as strings.
pub fn nonempty_lines(s: &str) -> (r: Vec<String>)
    ensures
        string_views(r@) == nonempty_lines_spec(s@),
{
    let chars = chars_of(s);
    let ls = lines(&chars);
    let ghost lv = views(ls@);
    let mut out: Vec<String> = Vec::new();
    let mut i: usize = 0;
    while i < ls.len()
        invariant
            i <= ls.len(),
            lv == views(ls@),
            lv == lines_spec(s@),
            string_views(out@) == lv.take(i as int).filter(|l: Seq<char>| l.len() > 0),
        decreases ls.len() - i,
    {
        assert(lv.take(i + 1).drop_last() == lv.take(i as int));
        assert(lv.take(i + 1).last() == ls[i as int]@);
        reveal(Seq::filter);
        if ls[i].len() > 0 {
            let line = string_of(&ls[i]);
            let ghost before = string_views(out@);
            out.push(line);
            assert(string_views(out@) =~= before.push(line@));
        }
        i = i + 1;
    }
    assert(lv.take(ls.len() as int) == lv);
    out
}


/// Appends characters to a string.
pub fn append_chars(out: &mut String, v: &[char])
    ensures
        final(out)@ == old(out)@ + v@,
{
    let ghost before = out@;
    let mut k: usize = 0;
    while k < v.len()
        invariant
            k <= v.len(),
            out@ == before + v@.take(k as int),
        decreases v.len() - k,
    {
        out.push(v[k]);
        k = k + 1;
        assert(before + v@.take(k as int) == (before + v@.take(k - 1)).push(v@[k - 1]));
    }
    assert(v@.take(v.len() as int) == v@);
}

/// Appends a string slice to a string.
pub fn append_str(out: &mut String, s: &str)
    ensures
        final(out)@ == old(out)@ + s@,
{
    let v = chars_of(s);
    append_chars(out, &v);
}


/// Index of the last occurrence of `c`, as [`last_index`] gives it.
pub fn rfind(s: &[char], c: char) -> (r: Option<usize>)
    ensures
        match r {
            Some(i) => last_index(s@, c) == Some(i as int) && i < s.len(),
            None => last_index(s@, c) is None,
        },
{
    match rfind_char(s, c) {
        Some(i) => {
            assert(is_last_index(s@, c, i as int));
            Some(i)
        },
        None => None,
    }
}

/// Index of the first occurrence of `c`, as [`first_index`] gives it.
pub fn find(s: &[char], c: char) -> (r: Option<usize>)
    ensures
        match r {
            Some(i) => first_index(s@, c) == Some(i as int) && i < s.len(),
            None => first_index(s@, c) is None,
        },
{
    match find_char(s, c) {
        Some(i) => {
            assert(is_first_index(s@, c, i as int));
            Some(i)
        },
        None => None,
    }
}

/// `str::trim_start_matches` with a string pattern.
pub fn trim_start_matches(s: &[char], p: &[char]) -> (r: Vec<char>)
    ensures
        r@ == trim_start_matches_spec(s@, p@),
{
    if p.len() == 0 {
        return sub_chars(s, 0, s.len());
    }
    let mut cur = sub_chars(s, 0, s.len());
    assert(s@.subrange(0, s@.len() as int) == s@);
    while starts_with(&cur, p)
        invariant
            p.len() > 0,
            trim_start_matches_spec(s@, p@) == trim_start_matches_spec(cur@, p@),
        decreases cur.len(),
    {
        let next = sub_chars(&cur, p.len(), cur.len());
        assert(next@ == cur@.skip(p.len() as int));
        cur = next;
    }
    cur
}

/// `str::trim_matches(['[', ']'])`.
pub fn trim_brackets(s: &[char]) -> (r: Vec<char>)
    ensures
        r@ == trim_brackets_spec(s@),
{
    let mut i: usize = 0;
    assert(s@.skip(0) == s@);
    while i < s.len() && (s[i] == '[' || s[i] == ']')
        invariant
            i <= s.len(),
            trim_brackets_start(s@) == trim_brackets_start(s@.skip(i as int)),
        decreases s.len() - i,
    {
        assert(s@.skip(i as int).drop_first() == s@.skip(i + 1));
        i = i + 1;
    }
    let a = sub_chars(s, i, s.len());
    assert(a@ == s@.skip(i as int));
    let mut j: usize = a.len();
    assert(a@.take(a.len() as int) == a@);
    while j > 0 && (a[j - 1] == '[' || a[j - 1] == ']')
        invariant
            j <= a.len(),
            trim_brackets_end(a@) == trim_brackets_end(a@.take(j as int)),
        decreases j,
    {
        assert(a@.take(j as int).drop_last() == a@.take(j - 1));
        j = j - 1;
    }
    assert(a@.take(j as int) == a@.subrange(0, j as int));
    sub_chars(&a, 0, j)
}

/// `str::trim_end_matches('.')`.
pub fn trim_end_dots(s: &[char]) -> (r: Vec<char>)
    ensures
        r@ == trim_end_dots_spec(s@),
{
    let mut j: usize = s.len();
    assert(s@.take(s.len() as int) == s@);
    while j > 0 && s[j - 1] == '.'
        invariant
            j <= s.len(),
            trim_end_dots_spec(s@) == trim_end_dots_spec(s@.take(j as int)),
        decreases j,
    {
        assert(s@.take(j as int).drop_last() == s@.take(j - 1));
        j = j - 1;
    }
    assert(s@.take(j as int) == s@.subrange(0, j as int));
    sub_chars(s, 0, j)
}

/// Index of the first occurrence of `p` in `s`, as [`first_occurrence`]
/// gives it.
pub fn find_seq(s: &[char], p: &[char]) -> (r: Option<usize>)
    ensures
        match r {
            Some(i) => first_occurrence(s@, p@) == Some(i as int) && i + p.len() <= s.len(),
            None => first_occurrence(s@, p@) is None,
        },
{
    if p.len() > s.len() {
        assert forall|k: int| !occurs_at(s@, p@, k) by {}
        return None;
    }
    if p.len() == 0 {
        assert(s@.subrange(0, 0) =~= p@);
        proof {
            lemma_first_occurrence(s@, p@, 0);
        }
        return Some(0);
    }
    let last = s.len() - p.len();
    let mut i: usize = 0;
    while i <= last
        invariant
            1 <= p.len() <= s.len(),
            last == s.len() - p.len(),
            i <= last + 1,
            forall|k: int| 0 <= k < i ==> !occurs_at(s@, p@, k),
        decreases last + 1 - i,
    {
        let mut j: usize = 0;
        let mut matched = true;
        while j < p.len()
            invariant
                i <= last,
                last == s.len() - p.len(),
                j <= p.len(),
                matched ==> forall|m: int| 0 <= m < j ==> s@[i + m] == p@[m],
                !matched ==> s@.subrange(i as int, i + p.len()) != p@,
            decreases p.len() - j,
        {
            if s[i + j] != p[j] {
                assert(s@.subrange(i as int, i + p.len())[j as int] != p@[j as int]);
                matched = false;
            }
            j = j + 1;
        }
        if matched {
            assert(s@.subrange(i as int, i + p.len()) =~= p@);
            proof {
                lemma_first_occurrence(s@, p@, i as int);
            }
            return Some(i);
        }
        i = i + 1;
    }
    assert forall|k: int| !occurs_at(s@, p@, k) by {}
    None
}

/// Copies a list of strings.
pub fn copy_strings(v: &Vec<String>) -> (r: Vec<String>)
    ensures
        string_views(r@) == string_views(v@),
        r.len() == v.len(),
{
    let mut out: Vec<String> = Vec::new();
    let mut i: usize = 0;
    while i < v.len()
        invariant
            i <= v.len(),
            string_views(out@) == string_views(v@).take(i as int),
            out.len() == i,
        decreases v.len() - i,
    {
        let ghost before = string_views(out@);
        out.push(v[i].clone());
        i = i + 1;
        assert(string_views(out@) =~= before.push(v@[i - 1]@));
        assert(string_views(v@).take(i as int) =~= string_views(v@).take(i - 1).push(v@[i - 1]@));
    }
    assert(string_views(v@).take(v.len() as int) =~= string_views(v@));
    out
}

/// The characters of a `String`.
pub fn chars_of_string(s: &String) -> (v: Vec<char>)
    ensures
        v@ == s@,
{
    chars_of(s.as_str())
}

} // verus!
