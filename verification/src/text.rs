//! Character-level primitives shared by the parser, the serializer and the
//! meta handling: the whitespace set, left-trimming, whitespace tokenization
//! and line splitting, each as a spec function with a verified executable
//! counterpart.

use vstd::prelude::*;

verus! {

/// The whitespace characters recognised inside a line: space, horizontal tab
/// and carriage return. (A line never contains a line feed.)
pub open spec fn is_space(c: char) -> bool {
    c == ' ' || c == '\t' || c == '\r'
}

/// Executable counterpart of [`is_space`].
pub fn space_char(c: char) -> (r: bool)
    ensures
        r == is_space(c),
{
    c == ' ' || c == '\t' || c == '\r'
}

/// The sequence with the leading run of whitespace removed.
pub open spec fn trim_start(s: Seq<char>) -> Seq<char>
    decreases s.len(),
{
    if s.len() == 0 {
        s
    } else if is_space(s[0]) {
        trim_start(s.drop_first())
    } else {
        s
    }
}

/// If the first `i` characters are whitespace and the character at `i` (when
/// there is one) is not, trimming removes exactly those `i` characters.
proof fn lemma_trim_start_at(s: Seq<char>, i: int)
    requires
        0 <= i <= s.len(),
        forall|k: int| 0 <= k < i ==> is_space(s[k]),
        i == s.len() || !is_space(s[i]),
    ensures
        trim_start(s) == s.skip(i),
    decreases i,
{
    if i == 0 {
        assert(s.skip(0) =~= s);
    } else {
        assert(is_space(s[0]));
        assert forall|k: int| 0 <= k < i - 1 implies is_space(#[trigger] s.drop_first()[k]) by {
            assert(s.drop_first()[k] == s[k + 1]);
        }
        assert(i - 1 == s.drop_first().len() || !is_space(s.drop_first()[i - 1]));
        lemma_trim_start_at(s.drop_first(), i - 1);
        assert(s.drop_first().skip(i - 1) =~= s.skip(i));
    }
}

/// Executable counterpart of [`trim_start`].
pub fn trim_start_str<'a>(s: &'a str) -> (r: &'a str)
    ensures
        r@ == trim_start(s@),
{
    let n: usize = s.unicode_len();
    let mut i: usize = 0;
    while i < n && space_char(s.get_char(i))
        invariant
            n == s@.len(),
            0 <= i <= n,
            forall|k: int| 0 <= k < i ==> is_space(s@[k]),
        decreases n - i,
    {
        i = i + 1;
    }
    proof {
        lemma_trim_start_at(s@, i as int);
    }
    s.substring_char(i, n)
}

/// The length of the whitespace-free token at the head of `s` (zero when `s`
/// is empty or starts with whitespace).
pub open spec fn token_len(s: Seq<char>) -> nat
    decreases s.len(),
{
    if s.len() == 0 || is_space(s[0]) {
        0
    } else {
        1 + token_len(s.drop_first())
    }
}

/// Basic bounds on [`token_len`].
pub proof fn lemma_token_len(s: Seq<char>)
    ensures
        token_len(s) <= s.len(),
        forall|k: int| 0 <= k < token_len(s) ==> !is_space(s[k]),
        token_len(s) < s.len() ==> is_space(s[token_len(s) as int]),
    decreases s.len(),
{
    if s.len() != 0 && !is_space(s[0]) {
        lemma_token_len(s.drop_first());
        assert forall|k: int| 0 <= k < token_len(s) implies !is_space(s[k]) by {
            if k > 0 {
                assert(s.drop_first()[k - 1] == s[k]);
            }
        }
        if token_len(s) < s.len() {
            assert(s.drop_first()[token_len(s) as int - 1] == s[token_len(s) as int]);
        }
    }
}

/// If the characters at `0..j` are not whitespace and the one at `j` (when
/// there is one) is, then the head token is exactly `j` characters long.
proof fn lemma_token_len_at(s: Seq<char>, j: int)
    requires
        0 <= j <= s.len(),
        forall|k: int| 0 <= k < j ==> !is_space(s[k]),
        j == s.len() || is_space(s[j]),
    ensures
        token_len(s) == j,
    decreases j,
{
    if j == 0 {
        if s.len() > 0 {
            assert(is_space(s[0]));
        }
    } else {
        assert(!is_space(s[0]));
        assert forall|k: int| 0 <= k < j - 1 implies !is_space(#[trigger] s.drop_first()[k]) by {
            assert(s.drop_first()[k] == s[k + 1]);
        }
        assert(j - 1 == s.drop_first().len() || is_space(s.drop_first()[j - 1]));
        lemma_token_len_at(s.drop_first(), j - 1);
    }
}

/// The whitespace-separated tokens of `s`, in order, with empty pieces
/// dropped, as `str::split_whitespace` produces them over this library's
/// whitespace set.
pub open spec fn split_ws(s: Seq<char>) -> Seq<Seq<char>>
    decreases s.len(),
    via split_ws_dec
{
    if s.len() == 0 {
        Seq::empty()
    } else if is_space(s[0]) {
        split_ws(s.drop_first())
    } else {
        seq![s.take(token_len(s) as int)] + split_ws(s.skip(token_len(s) as int))
    }
}

#[via_fn]
proof fn split_ws_dec(s: Seq<char>) {
    if s.len() > 0 && !is_space(s[0]) {
        lemma_token_len(s);
    }
}

/// Executable counterpart of [`split_ws`].
pub fn split_ws_str(s: &str) -> (r: Vec<String>)
    ensures
        r.deep_view() == split_ws(s@),
{
    let n: usize = s.unicode_len();
    let mut r: Vec<String> = Vec::new();
    let mut i: usize = 0;
    proof {
        assert(s@.skip(0) =~= s@);
        assert(r.deep_view() + split_ws(s@) =~= split_ws(s@));
    }
    while i < n
        invariant
            n == s@.len(),
            0 <= i <= n,
            split_ws(s@) == r.deep_view() + split_ws(s@.skip(i as int)),
        decreases n - i,
    {
        let ghost prev = r.deep_view();
        if space_char(s.get_char(i)) {
            proof {
                let t = s@.skip(i as int);
                assert(t[0] == s@[i as int]);
                assert(t.drop_first() =~= s@.skip(i as int + 1));
            }
            i = i + 1;
        } else {
            let mut j: usize = i + 1;
            while j < n && !space_char(s.get_char(j))
                invariant
                    n == s@.len(),
                    i < j <= n,
                    forall|k: int| i <= k < j ==> !is_space(s@[k]),
                    !is_space(s@[i as int]),
                decreases n - j,
            {
                j = j + 1;
            }
            let tok = s.substring_char(i, j).to_owned();
            r.push(tok);
            proof {
                let t = s@.skip(i as int);
                assert forall|k: int| 0 <= k < j - i implies !is_space(#[trigger] t[k]) by {
                    assert(t[k] == s@[i + k]);
                }
                assert(j - i == t.len() || is_space(t[j - i])) by {
                    if j < n {
                        assert(t[j - i] == s@[j as int]);
                    }
                }
                lemma_token_len_at(t, j - i);
                assert(t.take(j - i) =~= s@.subrange(i as int, j as int));
                assert(t.skip(j - i) =~= s@.skip(j as int));
                assert(r.deep_view() =~= prev + seq![s@.subrange(i as int, j as int)]);
                assert(split_ws(t) == seq![t.take(j - i)] + split_ws(t.skip(j - i)));
                assert(r.deep_view() + split_ws(s@.skip(j as int)) =~= prev + split_ws(t));
            }
            i = j;
        }
    }
    proof {
        assert(s@.skip(n as int).len() == 0);
        assert(r.deep_view() + split_ws(s@.skip(n as int)) =~= r.deep_view());
    }
    r
}

/// The length of the leading run of the character `c`.
pub open spec fn run_len(s: Seq<char>, c: char) -> nat
    decreases s.len(),
{
    if s.len() == 0 || s[0] != c {
        0
    } else {
        1 + run_len(s.drop_first(), c)
    }
}

/// If the characters at `0..j` are all `c` and the one at `j` (when there is
/// one) is not, the leading run is exactly `j` characters long.
proof fn lemma_run_len_at(s: Seq<char>, c: char, j: int)
    requires
        0 <= j <= s.len(),
        forall|k: int| 0 <= k < j ==> s[k] == c,
        j == s.len() || s[j] != c,
    ensures
        run_len(s, c) == j,
    decreases j,
{
    if j == 0 {
        if s.len() > 0 {
            assert(s[0] != c);
        }
    } else {
        assert(s[0] == c);
        assert forall|k: int| 0 <= k < j - 1 implies #[trigger] s.drop_first()[k] == c by {
            assert(s.drop_first()[k] == s[k + 1]);
        }
        assert(j - 1 == s.drop_first().len() || s.drop_first()[j - 1] != c);
        lemma_run_len_at(s.drop_first(), c, j - 1);
    }
}

/// Executable counterpart of [`run_len`].
pub fn count_run(s: &str, c: char) -> (r: usize)
    ensures
        r == run_len(s@, c),
        r <= s@.len(),
{
    let n: usize = s.unicode_len();
    let mut i: usize = 0;
    while i < n && s.get_char(i) == c
        invariant
            n == s@.len(),
            0 <= i <= n,
            forall|k: int| 0 <= k < i ==> s@[k] == c,
        decreases n - i,
    {
        i = i + 1;
    }
    proof {
        lemma_run_len_at(s@, c, i as int);
    }
    i
}

/// The index of the first occurrence of `c`, or the length of `s` when
/// there is none.
pub open spec fn find_char(s: Seq<char>, c: char) -> nat
    decreases s.len(),
{
    if s.len() == 0 || s[0] == c {
        0
    } else {
        1 + find_char(s.drop_first(), c)
    }
}

/// Basic bounds on [`find_char`].
pub proof fn lemma_find_char(s: Seq<char>, c: char)
    ensures
        find_char(s, c) <= s.len(),
        forall|k: int| 0 <= k < find_char(s, c) ==> s[k] != c,
        find_char(s, c) < s.len() ==> s[find_char(s, c) as int] == c,
    decreases s.len(),
{
    if s.len() != 0 && s[0] != c {
        lemma_find_char(s.drop_first(), c);
        assert forall|k: int| 0 <= k < find_char(s, c) implies s[k] != c by {
            if k > 0 {
                assert(s.drop_first()[k - 1] == s[k]);
            }
        }
        if find_char(s, c) < s.len() {
            assert(s.drop_first()[find_char(s, c) as int - 1] == s[find_char(s, c) as int]);
        }
    }
}

/// If the characters at `0..j` are not `c` and the one at `j` (when there
/// is one) is, then the first occurrence stands exactly at `j`.
proof fn lemma_find_char_at(s: Seq<char>, c: char, j: int)
    requires
        0 <= j <= s.len(),
        forall|k: int| 0 <= k < j ==> s[k] != c,
        j == s.len() || s[j] == c,
    ensures
        find_char(s, c) == j,
    decreases j,
{
    if j == 0 {
        if s.len() > 0 && s[0] != c {
            assert(false);
        }
    } else {
        assert(s[0] != c);
        assert forall|k: int| 0 <= k < j - 1 implies #[trigger] s.drop_first()[k] != c by {
            assert(s.drop_first()[k] == s[k + 1]);
        }
        assert(j - 1 == s.drop_first().len() || s.drop_first()[j - 1] == c);
        lemma_find_char_at(s.drop_first(), c, j - 1);
    }
}

/// Executable counterpart of [`find_char`].
pub fn find_char_str(s: &str, c: char) -> (r: usize)
    ensures
        r == find_char(s@, c),
        r <= s@.len(),
{
    let n: usize = s.unicode_len();
    let mut i: usize = 0;
    while i < n && s.get_char(i) != c
        invariant
            n == s@.len(),
            0 <= i <= n,
            forall|k: int| 0 <= k < i ==> s@[k] != c,
        decreases n - i,
    {
        i = i + 1;
    }
    proof {
        lemma_find_char_at(s@, c, i as int);
    }
    i
}

/// The pieces of `s` between occurrences of `c`: empty pieces are kept,
/// and there is always at least one piece.
pub open spec fn split_at_char(s: Seq<char>, c: char) -> Seq<Seq<char>>
    decreases s.len(),
    via split_at_char_dec
{
    let k = find_char(s, c) as int;
    if k == s.len() {
        seq![s]
    } else {
        seq![s.take(k)] + split_at_char(s.skip(k + 1), c)
    }
}

#[via_fn]
proof fn split_at_char_dec(s: Seq<char>, c: char) {
    lemma_find_char(s, c);
}

/// Executable counterpart of [`split_at_char`].
pub fn split_at_char_str(s: &str, c: char) -> (r: Vec<String>)
    ensures
        r.deep_view() == split_at_char(s@, c),
{
    let n: usize = s.unicode_len();
    let mut pieces: Vec<String> = Vec::new();
    let mut start: usize = 0;
    let mut i: usize = 0;
    proof {
        assert(s@.skip(0) =~= s@);
        assert(pieces.deep_view() + split_at_char(s@, c) =~= split_at_char(s@, c));
    }
    while i < n
        invariant
            n == s@.len(),
            0 <= start <= i <= n,
            split_at_char(s@, c) == pieces.deep_view() + split_at_char(s@.skip(start as int), c),
            forall|k: int| start <= k < i ==> s@[k] != c,
        decreases n - i,
    {
        if s.get_char(i) == c {
            let ghost prev = pieces.deep_view();
            let piece = s.substring_char(start, i).to_owned();
            pieces.push(piece);
            proof {
                let t = s@.skip(start as int);
                assert forall|k: int| 0 <= k < i - start implies #[trigger] t[k] != c by {
                    assert(t[k] == s@[start + k]);
                }
                assert(t[i - start] == s@[i as int]);
                lemma_find_char_at(t, c, i - start);
                assert(t.take(i - start) =~= s@.subrange(start as int, i as int));
                assert(t.skip(i - start + 1) =~= s@.skip(i + 1));
                assert(pieces.deep_view() =~= prev + seq![s@.subrange(start as int, i as int)]);
                assert(split_at_char(t, c) == seq![t.take(i - start)] + split_at_char(
                    t.skip(i - start + 1),
                    c,
                ));
                assert(pieces.deep_view() + split_at_char(s@.skip(i + 1), c) =~= prev
                    + split_at_char(t, c));
            }
            start = i + 1;
            i = i + 1;
        } else {
            i = i + 1;
        }
    }
    let ghost prev = pieces.deep_view();
    let last = s.substring_char(start, n).to_owned();
    pieces.push(last);
    proof {
        let t = s@.skip(start as int);
        assert forall|k: int| 0 <= k < t.len() implies #[trigger] t[k] != c by {
            assert(t[k] == s@[start + k]);
        }
        lemma_find_char_at(t, c, t.len() as int);
        assert(t.take(t.len() as int) =~= t);
        assert(t =~= s@.subrange(start as int, n as int));
        assert(split_at_char(t, c) == seq![t]);
        assert(pieces.deep_view() =~= prev + seq![t]);
    }
    pieces
}

/// Whether the first character of `s` is `c`.
pub fn starts_with_char(s: &str, c: char) -> (r: bool)
    ensures
        r == (s@.len() > 0 && s@[0] == c),
{
    s.unicode_len() > 0 && s.get_char(0) == c
}

/// The index of the first line feed in `s`, or the length of `s` when there
/// is none.
pub open spec fn line_break(s: Seq<char>) -> nat
    decreases s.len(),
{
    if s.len() == 0 || s[0] == '\n' {
        0
    } else {
        1 + line_break(s.drop_first())
    }
}

/// Basic bounds on [`line_break`].
pub proof fn lemma_line_break(s: Seq<char>)
    ensures
        line_break(s) <= s.len(),
        forall|k: int| 0 <= k < line_break(s) ==> s[k] != '\n',
        line_break(s) < s.len() ==> s[line_break(s) as int] == '\n',
    decreases s.len(),
{
    if s.len() != 0 && s[0] != '\n' {
        lemma_line_break(s.drop_first());
        assert forall|k: int| 0 <= k < line_break(s) implies s[k] != '\n' by {
            if k > 0 {
                assert(s.drop_first()[k - 1] == s[k]);
            }
        }
        if line_break(s) < s.len() {
            assert(s.drop_first()[line_break(s) as int - 1] == s[line_break(s) as int]);
        }
    }
}

/// If the characters at `0..j` are not line feeds and the one at `j` (when
/// there is one) is, then the first line feed stands exactly at `j`.
proof fn lemma_line_break_at(s: Seq<char>, j: int)
    requires
        0 <= j <= s.len(),
        forall|k: int| 0 <= k < j ==> s[k] != '\n',
        j == s.len() || s[j] == '\n',
    ensures
        line_break(s) == j,
    decreases j,
{
    if j == 0 {
        if s.len() > 0 {
            assert(s[0] == '\n');
        }
    } else {
        assert(s[0] != '\n');
        assert forall|k: int| 0 <= k < j - 1 implies #[trigger] s.drop_first()[k] != '\n' by {
            assert(s.drop_first()[k] == s[k + 1]);
        }
        assert(j - 1 == s.drop_first().len() || s.drop_first()[j - 1] == '\n');
        lemma_line_break_at(s.drop_first(), j - 1);
    }
}

/// The lines of `s`: the pieces between line feeds, except that a final empty
/// piece (from a trailing line feed) is not kept, as `str::lines` splits.
pub open spec fn split_lines(s: Seq<char>) -> Seq<Seq<char>>
    decreases s.len(),
    via split_lines_dec
{
    if s.len() == 0 {
        Seq::empty()
    } else {
        let k = line_break(s) as int;
        if k == s.len() {
            seq![s]
        } else {
            seq![s.take(k)] + split_lines(s.skip(k + 1))
        }
    }
}

#[via_fn]
proof fn split_lines_dec(s: Seq<char>) {
    if s.len() > 0 {
        lemma_line_break(s);
    }
}

/// Whether `s` ends with a line feed.
pub open spec fn ends_nl(s: Seq<char>) -> bool {
    s.len() > 0 && s.last() == '\n'
}

/// The lines concatenated back, each terminated by one line feed.
pub open spec fn lines_term(ls: Seq<Seq<char>>) -> Seq<char>
    decreases ls.len(),
{
    if ls.len() == 0 {
        Seq::empty()
    } else {
        ls.first() + "\n"@ + lines_term(ls.drop_first())
    }
}

/// Appending a line appends its terminated text.
pub proof fn lemma_lines_term_push(ls: Seq<Seq<char>>, l: Seq<char>)
    ensures
        lines_term(ls.push(l)) == lines_term(ls) + l + "\n"@,
    decreases ls.len(),
{
    assert(lines_term(Seq::<Seq<char>>::empty()) == Seq::<char>::empty());
    if ls.len() == 0 {
        assert(ls.push(l).first() == l);
        assert(ls.push(l).drop_first() =~= Seq::<Seq<char>>::empty());
        assert(lines_term(ls.push(l)) == l + "\n"@ + lines_term(Seq::<Seq<char>>::empty()));
        assert(lines_term(ls.push(l)) =~= l + "\n"@);
        assert(lines_term(ls) + l + "\n"@ =~= l + "\n"@);
    } else {
        assert(ls.push(l).first() == ls.first());
        assert(ls.push(l).drop_first() =~= ls.drop_first().push(l));
        lemma_lines_term_push(ls.drop_first(), l);
        assert(lines_term(ls.push(l)) == ls.first() + "\n"@ + lines_term(ls.drop_first().push(l)));
        assert(lines_term(ls) == ls.first() + "\n"@ + lines_term(ls.drop_first()));
        assert(lines_term(ls.push(l)) =~= lines_term(ls) + l + "\n"@);
    }
}

/// The terminated text of at least one line is nonempty and ends with a line
/// feed.
pub proof fn lemma_lines_term_last(ls: Seq<Seq<char>>)
    requires
        ls.len() > 0,
    ensures
        lines_term(ls).len() > 0,
        lines_term(ls).last() == '\n',
    decreases ls.len(),
{
    reveal_strlit("\n");
    if ls.len() == 1 {
        assert(lines_term(ls.drop_first()) =~= Seq::<char>::empty());
        assert(lines_term(ls) =~= ls.first() + "\n"@);
    } else {
        lemma_lines_term_last(ls.drop_first());
    }
}

/// Splitting and rejoining: the terminated lines reproduce the source, up to
/// one final line feed that the source may or may not carry.
pub proof fn lemma_split_lines_join(s: Seq<char>)
    ensures
        s.len() == 0 ==> split_lines(s) == Seq::<Seq<char>>::empty(),
        s.len() > 0 && ends_nl(s) ==> lines_term(split_lines(s)) == s,
        s.len() > 0 && !ends_nl(s) ==> lines_term(split_lines(s)) == s + "\n"@,
    decreases s.len(),
{
    reveal_strlit("\n");
    assert(lines_term(Seq::<Seq<char>>::empty()) == Seq::<char>::empty());
    if s.len() > 0 {
        let k = line_break(s) as int;
        lemma_line_break(s);
        if k == s.len() {
            assert(s.last() != '\n');
            assert(seq![s].first() == s);
            assert(seq![s].drop_first() =~= Seq::<Seq<char>>::empty());
            assert(lines_term(seq![s]) == s + "\n"@ + lines_term(Seq::<Seq<char>>::empty()));
            assert(lines_term(seq![s]) =~= s + "\n"@);
        } else {
            let rest = s.skip(k + 1);
            lemma_split_lines_join(rest);
            let ls = seq![s.take(k)] + split_lines(rest);
            assert(split_lines(s) == ls);
            assert(ls.len() > 0);
            assert(ls.first() == s.take(k));
            assert(ls.drop_first() =~= split_lines(rest));
            assert(lines_term(ls) == s.take(k) + "\n"@ + lines_term(split_lines(rest)));
            if rest.len() == 0 {
                assert(k == s.len() - 1);
                assert(s[k] == '\n');
                assert(ends_nl(s));
                assert(split_lines(rest) == Seq::<Seq<char>>::empty());
                assert(lines_term(ls) == s.take(k) + "\n"@ + Seq::<char>::empty());
                assert(lines_term(ls) =~= s);
            } else if ends_nl(rest) {
                assert(rest.last() == s.last());
                assert(ends_nl(s));
                assert(lines_term(split_lines(rest)) == rest);
                assert(lines_term(ls) =~= s);
            } else {
                assert(rest.last() == s.last());
                assert(!ends_nl(s));
                assert(lines_term(split_lines(rest)) == rest + "\n"@);
                assert(lines_term(ls) =~= s + "\n"@);
            }
        }
    }
}

/// Executable line splitting: the lines of `s` and whether `s` ends with a
/// line feed.
pub fn split_lines_str(s: &str) -> (r: (Vec<String>, bool))
    ensures
        r.0.deep_view() == split_lines(s@),
        r.1 == ends_nl(s@),
{
    let n: usize = s.unicode_len();
    let mut lines: Vec<String> = Vec::new();
    let mut start: usize = 0;
    let mut i: usize = 0;
    proof {
        assert(s@.skip(0) =~= s@);
        assert(lines.deep_view() + split_lines(s@) =~= split_lines(s@));
    }
    while i < n
        invariant
            n == s@.len(),
            0 <= start <= i <= n,
            split_lines(s@) == lines.deep_view() + split_lines(s@.skip(start as int)),
            forall|k: int| start <= k < i ==> s@[k] != '\n',
        decreases n - i,
    {
        if s.get_char(i) == '\n' {
            let ghost prev = lines.deep_view();
            let line = s.substring_char(start, i).to_owned();
            lines.push(line);
            proof {
                let t = s@.skip(start as int);
                assert forall|k: int| 0 <= k < i - start implies #[trigger] t[k] != '\n' by {
                    assert(t[k] == s@[start + k]);
                }
                assert(t[i - start] == s@[i as int]);
                lemma_line_break_at(t, i - start);
                assert(t.take(i - start) =~= s@.subrange(start as int, i as int));
                assert(t.skip(i - start + 1) =~= s@.skip(i + 1));
                assert(lines.deep_view() =~= prev + seq![s@.subrange(start as int, i as int)]);
                assert(split_lines(t) == seq![t.take(i - start)] + split_lines(t.skip(i - start + 1)));
                assert(lines.deep_view() + split_lines(s@.skip(i + 1)) =~= prev + split_lines(t));
            }
            start = i + 1;
            i = i + 1;
        } else {
            i = i + 1;
        }
    }
    if start < n {
        let ghost prev = lines.deep_view();
        let line = s.substring_char(start, n).to_owned();
        lines.push(line);
        proof {
            let t = s@.skip(start as int);
            assert forall|k: int| 0 <= k < t.len() implies #[trigger] t[k] != '\n' by {
                assert(t[k] == s@[start + k]);
            }
            lemma_line_break_at(t, t.len() as int);
            assert(t.take(t.len() as int) =~= t);
            assert(t =~= s@.subrange(start as int, n as int));
            assert(split_lines(t) == seq![t]);
            assert(lines.deep_view() =~= prev + seq![t]);
        }
    } else {
        proof {
            assert(s@.skip(start as int).len() == 0);
            assert(lines.deep_view() + split_lines(s@.skip(start as int)) =~= lines.deep_view());
        }
    }
    let had_nl = n > 0 && s.get_char(n - 1) == '\n';
    (lines, had_nl)
}

} // verus!
