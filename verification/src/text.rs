//! Character-level text helpers shared by the Markdown importer and the search.
//!
//! A string is modelled by its sequence of characters. Every helper states its
//! result over that sequence.

use vstd::prelude::*;

verus! {

/// Whether `c` has the Unicode `White_Space` property.
pub open spec fn is_space(c: char) -> bool {
    let u = c as u32;
    ||| 0x09 <= u <= 0x0d
    ||| u == 0x20
    ||| u == 0x85
    ||| u == 0xa0
    ||| u == 0x1680
    ||| 0x2000 <= u <= 0x200a
    ||| u == 0x2028
    ||| u == 0x2029
    ||| u == 0x202f
    ||| u == 0x205f
    ||| u == 0x3000
}

/// Whether every character of `s` is white space.
pub open spec fn blank(s: Seq<char>) -> bool {
    forall|i: int| 0 <= i < s.len() ==> is_space(#[trigger] s[i])
}

/// `s` without its trailing white space.
pub open spec fn trimmed_end(s: Seq<char>) -> Seq<char>
    decreases s.len(),
{
    if s.len() > 0 && is_space(s.last()) {
        trimmed_end(s.drop_last())
    } else {
        s
    }
}

/// `s` without its leading white space.
pub open spec fn trimmed_start(s: Seq<char>) -> Seq<char>
    decreases s.len(),
{
    if s.len() > 0 && is_space(s[0]) {
        trimmed_start(s.drop_first())
    } else {
        s
    }
}

/// `s` without its leading and trailing white space.
pub open spec fn trimmed(s: Seq<char>) -> Seq<char> {
    trimmed_end(trimmed_start(s))
}

/// How many characters at the start of `s` equal `c`.
pub open spec fn run_len(s: Seq<char>, c: char) -> nat
    decreases s.len(),
{
    if s.len() > 0 && s[0] == c {
        1 + run_len(s.drop_first(), c)
    } else {
        0
    }
}

/// Whether `needle` stands in `s` at position `at`.
pub open spec fn occurs_at(s: Seq<char>, needle: Seq<char>, at: int) -> bool {
    0 <= at && at + needle.len() <= s.len() && s.subrange(at, at + needle.len()) == needle
}

/// Whether `needle` stands somewhere in `s`.
pub open spec fn occurs(s: Seq<char>, needle: Seq<char>) -> bool {
    exists|at: int| #[trigger] occurs_at(s, needle, at)
}

/// The first position at or after `from` where `needle` stands in `s`.
pub open spec fn find_at(s: Seq<char>, needle: Seq<char>, from: int) -> Option<int>
    decreases s.len() + 1 - from,
{
    if from + needle.len() > s.len() {
        None
    } else if occurs_at(s, needle, from) {
        Some(from)
    } else {
        find_at(s, needle, from + 1)
    }
}

/// The ASCII lower-case form of `c`.
pub open spec fn ascii_lower(c: char) -> char {
    if 'A' <= c <= 'Z' {
        ((c as u32) + 32) as char
    } else {
        c
    }
}

/// Whether two texts are the same but for the case of ASCII letters.
pub open spec fn same_ignoring_ascii_case(a: Seq<char>, b: Seq<char>) -> bool {
    a.len() == b.len() && forall|i: int|
        0 <= i < a.len() ==> ascii_lower(#[trigger] a[i]) == ascii_lower(b[i])
}

/// Whether `needle` stands at the end of `s`.
pub open spec fn ends_with(s: Seq<char>, needle: Seq<char>) -> bool {
    occurs_at(s, needle, s.len() - needle.len())
}

/// The texts of a sequence of strings.
pub open spec fn texts(lines: Seq<String>) -> Seq<Seq<char>> {
    Seq::new(lines.len(), |i: int| lines[i]@)
}

/// The lines joined by a line feed between each two.
pub open spec fn joined(lines: Seq<Seq<char>>) -> Seq<char>
    decreases lines.len(),
{
    if lines.len() == 0 {
        Seq::empty()
    } else if lines.len() == 1 {
        lines[0]
    } else {
        joined(lines.drop_last()) + seq!['\n'] + lines.last()
    }
}

/// The lines of `s`, which line feeds separate.
pub open spec fn lines_of(s: Seq<char>) -> Seq<Seq<char>>
    decreases s.len(),
{
    if s.len() == 0 {
        seq![Seq::empty()]
    } else {
        let before = lines_of(s.drop_last());
        if s.last() == '\n' {
            before.push(Seq::empty())
        } else {
            before.update(before.len() - 1, before.last().push(s.last()))
        }
    }
}

/// A text has at least one line.
pub proof fn lemma_lines_of_nonempty(s: Seq<char>)
    ensures
        lines_of(s).len() >= 1,
    decreases s.len(),
{
    if s.len() > 0 {
        lemma_lines_of_nonempty(s.drop_last());
    }
}

/// Joining the lines of a text gives the text back.
pub proof fn joining_the_lines_restores_the_text(s: Seq<char>)
    ensures
        joined(lines_of(s)) == s,
    decreases s.len(),
{
    lemma_lines_of_nonempty(s);
    if s.len() == 0 {
        assert(joined(lines_of(s)) =~= s);
    } else {
        let shorter = s.drop_last();
        let before = lines_of(shorter);
        lemma_lines_of_nonempty(shorter);
        joining_the_lines_restores_the_text(shorter);
        if s.last() == '\n' {
            assert(lines_of(s).drop_last() =~= before);
            assert(joined(lines_of(s)) =~= shorter + seq!['\n'] + Seq::empty());
            assert(shorter + seq!['\n'] + Seq::<char>::empty() =~= s);
        } else {
            let after = lines_of(s);
            assert(after.drop_last() =~= before.drop_last());
            assert(after.last() == before.last().push(s.last()));
            if before.len() == 1 {
                assert(joined(after) == after[0]);
                assert(joined(before) == before[0]);
                assert(before[0] == shorter);
                assert(shorter.push(s.last()) =~= s);
            } else {
                assert(joined(after) =~= joined(before).push(s.last()));
                assert(shorter.push(s.last()) =~= s);
            }
        }
    }
}

/// A run is no longer than the text, and holds nothing else.
pub proof fn lemma_run_len_bound(s: Seq<char>, c: char)
    ensures
        run_len(s, c) <= s.len(),
        forall|i: int| 0 <= i < run_len(s, c) ==> s[i] == c,
        run_len(s, c) < s.len() ==> s[run_len(s, c) as int] != c,
    decreases s.len(),
{
    if s.len() > 0 && s[0] == c {
        lemma_run_len_bound(s.drop_first(), c);
        assert forall|i: int| 0 <= i < run_len(s, c) implies s[i] == c by {
            if i > 0 {
                assert(s.drop_first()[i - 1] == c);
            }
        }
    }
}

/// A run ends at the first other character.
pub proof fn lemma_run_len_is(s: Seq<char>, c: char, n: nat)
    requires
        n <= s.len(),
        forall|i: int| 0 <= i < n ==> s[i] == c,
        n < s.len() ==> s[n as int] != c,
    ensures
        run_len(s, c) == n,
    decreases s.len(),
{
    if n > 0 {
        assert(s[0] == c);
        let rest = s.drop_first();
        assert forall|i: int| 0 <= i < n - 1 implies rest[i] == c by {
            assert(rest[i] == s[i + 1]);
        }
        lemma_run_len_is(rest, c, (n - 1) as nat);
    }
}

/// What is left is the start of the text with nothing but blanks behind it.
pub proof fn lemma_trimmed_end_is(s: Seq<char>, n: int)
    requires
        0 <= n <= s.len(),
        forall|i: int| n <= i < s.len() ==> is_space(#[trigger] s[i]),
        n > 0 ==> !is_space(s[n - 1]),
    ensures
        trimmed_end(s) == s.subrange(0, n),
    decreases s.len(),
{
    if n < s.len() {
        let shorter = s.drop_last();
        lemma_trimmed_end_is(shorter, n);
        assert(shorter.subrange(0, n) =~= s.subrange(0, n));
    } else {
        assert(s.subrange(0, n) =~= s);
    }
}

/// What is left is the end of the text with nothing but blanks before it.
pub proof fn lemma_trimmed_start_is(s: Seq<char>, n: int)
    requires
        0 <= n <= s.len(),
        forall|i: int| 0 <= i < n ==> is_space(#[trigger] s[i]),
        n < s.len() ==> !is_space(s[n]),
    ensures
        trimmed_start(s) == s.subrange(n, s.len() as int),
    decreases s.len(),
{
    if n > 0 {
        let rest = s.drop_first();
        assert(is_space(s[0]));
        assert forall|i: int| 0 <= i < n - 1 implies is_space(#[trigger] rest[i]) by {
            assert(rest[i] == s[i + 1]);
        }
        lemma_trimmed_start_is(rest, n - 1);
        assert(rest.subrange(n - 1, rest.len() as int) =~= s.subrange(n, s.len() as int));
    } else {
        assert(s.subrange(0, s.len() as int) =~= s);
    }
}

/// A text is blank exactly when trimming leaves nothing of it.
pub proof fn blank_iff_trimmed_is_empty(s: Seq<char>)
    ensures
        blank(s) <==> trimmed(s).len() == 0,
        blank(s) <==> trimmed_end(s).len() == 0,
    decreases s.len(),
{
    lemma_trimmed_end_shape(s);
    lemma_trimmed_start_shape(s);
    let rest = trimmed_start(s);
    lemma_trimmed_end_shape(rest);
    let cut: int = s.len() - rest.len();
    if blank(s) {
        if rest.len() > 0 {
            assert(rest[0] == s[cut]);
        }
    } else {
        let k = choose|k: int| 0 <= k < s.len() && !is_space(s[k]);
        assert(k >= cut);
        assert(rest[k - cut] == s[k]);
    }
}

/// What is left ends in no blank, and all behind it is blank.
pub proof fn lemma_trimmed_end_shape(s: Seq<char>)
    ensures
        trimmed_end(s).len() <= s.len(),
        trimmed_end(s) == s.subrange(0, trimmed_end(s).len() as int),
        forall|i: int| trimmed_end(s).len() <= i < s.len() ==> is_space(#[trigger] s[i]),
        trimmed_end(s).len() > 0 ==> !is_space(trimmed_end(s).last()),
    decreases s.len(),
{
    if s.len() > 0 && is_space(s.last()) {
        let shorter = s.drop_last();
        lemma_trimmed_end_shape(shorter);
        let n = trimmed_end(s).len() as int;
        assert(shorter.subrange(0, n) =~= s.subrange(0, n));
        assert forall|i: int| n <= i < s.len() implies is_space(#[trigger] s[i]) by {
            if i < s.len() - 1 {
                assert(shorter[i] == s[i]);
            }
        }
    } else {
        assert(s.subrange(0, s.len() as int) =~= s);
    }
}

/// What is left starts with no blank, and all before it is blank.
pub proof fn lemma_trimmed_start_shape(s: Seq<char>)
    ensures
        trimmed_start(s).len() <= s.len(),
        trimmed_start(s) == s.subrange(s.len() - trimmed_start(s).len(), s.len() as int),
        forall|i: int| 0 <= i < s.len() - trimmed_start(s).len() ==> is_space(#[trigger] s[i]),
        trimmed_start(s).len() > 0 ==> !is_space(trimmed_start(s)[0]),
    decreases s.len(),
{
    if s.len() > 0 && is_space(s[0]) {
        let rest = s.drop_first();
        lemma_trimmed_start_shape(rest);
        let n: int = s.len() - trimmed_start(s).len();
        assert(rest.subrange(n - 1, rest.len() as int) =~= s.subrange(n, s.len() as int));
        assert forall|i: int| 0 <= i < n implies is_space(#[trigger] s[i]) by {
            if i > 0 {
                assert(rest[i - 1] == s[i]);
            }
        }
    } else {
        assert(s.subrange(0, s.len() as int) =~= s);
    }
}

/// Whether `c` has the Unicode `White_Space` property.
pub fn is_whitespace(c: char) -> (r: bool)
    ensures
        r == is_space(c),
{
    let u: u32 = c as u32;
    (0x09 <= u && u <= 0x0d) || u == 0x20 || u == 0x85 || u == 0xa0 || u == 0x1680 || (0x2000 <= u
        && u <= 0x200a) || u == 0x2028 || u == 0x2029 || u == 0x202f || u == 0x205f || u == 0x3000
}

/// The characters of `s`.
pub fn chars_of(s: &str) -> (r: Vec<char>)
    ensures
        r@ == s@,
{
    let mut out: Vec<char> = Vec::new();
    for c in it: s.chars()
        invariant
            it.seq() == s@,
            out@ == s@.take(it.index() as int),
    {
        out.push(c);
    }
    out
}

/// The text made of the characters `cs[from..to]`, which must be those of `s`.
pub fn slice_text<'a>(s: &'a str, from: usize, to: usize) -> (r: &'a str)
    requires
        from <= to <= s@.len(),
    ensures
        r@ == s@.subrange(from as int, to as int),
{
    s.substring_char(from, to)
}

/// How many characters are left of `cs` without its trailing white space.
pub fn trim_end_len(cs: &[char]) -> (r: usize)
    ensures
        r <= cs@.len(),
        r == trimmed_end(cs@).len(),
        trimmed_end(cs@) == cs@.subrange(0, r as int),
{
    let mut n: usize = cs.len();
    while n > 0 && is_whitespace(cs[n - 1])
        invariant
            n <= cs@.len(),
            forall|i: int| n <= i < cs@.len() ==> is_space(#[trigger] cs@[i]),
        decreases n,
    {
        n = n - 1;
    }
    proof {
        lemma_trimmed_end_is(cs@, n as int);
    }
    n
}

/// How many white-space characters stand at the start of `cs`.
pub fn trim_start_len(cs: &[char]) -> (r: usize)
    ensures
        r <= cs@.len(),
        r == cs@.len() - trimmed_start(cs@).len(),
        trimmed_start(cs@) == cs@.subrange(r as int, cs@.len() as int),
{
    let mut n: usize = 0;
    while n < cs.len() && is_whitespace(cs[n])
        invariant
            n <= cs@.len(),
            forall|i: int| 0 <= i < n ==> is_space(#[trigger] cs@[i]),
        decreases cs@.len() - n,
    {
        n = n + 1;
    }
    proof {
        lemma_trimmed_start_is(cs@, n as int);
    }
    n
}

/// `s` without its trailing white space.
pub fn trim_end(s: &str) -> (r: &str)
    ensures
        r@ == trimmed_end(s@),
{
    let cs = chars_of(s);
    let n: usize = trim_end_len(cs.as_slice());
    slice_text(s, 0, n)
}

/// `s` without its leading white space.
pub fn trim_start(s: &str) -> (r: &str)
    ensures
        r@ == trimmed_start(s@),
{
    let cs = chars_of(s);
    let n: usize = trim_start_len(cs.as_slice());
    slice_text(s, n, cs.len())
}

/// `s` without its leading and trailing white space.
pub fn trim(s: &str) -> (r: &str)
    ensures
        r@ == trimmed(s@),
{
    trim_end(trim_start(s))
}

/// Whether every character of `s` is white space.
pub fn is_blank(s: &str) -> (r: bool)
    ensures
        r == blank(s@),
{
    let cs = chars_of(s);
    let mut n: usize = 0;
    while n < cs.len()
        invariant
            n <= cs@.len(),
            cs@ == s@,
            forall|i: int| 0 <= i < n ==> is_space(#[trigger] cs@[i]),
        decreases cs@.len() - n,
    {
        if !is_whitespace(cs[n]) {
            assert(!is_space(s@[n as int]));
            return false;
        }
        n = n + 1;
    }
    true
}

/// How many characters at the start of `cs` equal `c`.
pub fn leading_run(cs: &[char], c: char) -> (r: usize)
    ensures
        r == run_len(cs@, c),
        r <= cs@.len(),
{
    let mut n: usize = 0;
    while n < cs.len() && cs[n] == c
        invariant
            n <= cs@.len(),
            forall|i: int| 0 <= i < n ==> cs@[i] == c,
        decreases cs@.len() - n,
    {
        n = n + 1;
    }
    proof {
        lemma_run_len_is(cs@, c, n as nat);
    }
    n
}

/// Whether `needle` stands in `cs` at position `at`.
pub fn matches_at(cs: &[char], needle: &[char], at: usize) -> (r: bool)
    ensures
        r == occurs_at(cs@, needle@, at as int),
{
    if at > cs.len() || needle.len() > cs.len() - at {
        return false;
    }
    let mut k: usize = 0;
    let n: usize = cs.len();
    while k < needle.len()
        invariant
            k <= needle@.len(),
            n == cs@.len(),
            at + needle@.len() <= cs@.len(),
            forall|j: int| 0 <= j < k ==> cs@[at + j] == #[trigger] needle@[j],
        decreases needle@.len() - k,
    {
        if cs[at + k] != needle[k] {
            assert(cs@.subrange(at as int, at + needle@.len())[k as int] == cs@[at + k]);
            return false;
        }
        k = k + 1;
    }
    assert(cs@.subrange(at as int, at + needle@.len()) =~= needle@);
    true
}

/// Whether `prefix` stands at the start of `s`.
pub fn has_prefix(s: &str, prefix: &str) -> (r: bool)
    ensures
        r == prefix@.is_prefix_of(s@),
{
    let cs = chars_of(s);
    let ps = chars_of(prefix);
    matches_at(cs.as_slice(), ps.as_slice(), 0)
}

/// Whether `suffix` stands at the end of `s`.
pub fn has_suffix(s: &str, suffix: &str) -> (r: bool)
    ensures
        r == ends_with(s@, suffix@),
{
    let cs = chars_of(s);
    let ps = chars_of(suffix);
    if ps.len() > cs.len() {
        return false;
    }
    matches_at(cs.as_slice(), ps.as_slice(), cs.len() - ps.len())
}

/// The needle stands at the place that is found; where none is, it stands nowhere.
pub proof fn lemma_find_at(s: Seq<char>, needle: Seq<char>, from: int)
    requires
        0 <= from,
    ensures
        find_at(s, needle, from) matches Some(at) ==> from <= at && occurs_at(s, needle, at),
        find_at(s, needle, from) is None ==> forall|j: int|
            from <= j ==> !#[trigger] occurs_at(s, needle, j),
    decreases s.len() + 1 - from,
{
    if from + needle.len() <= s.len() && !occurs_at(s, needle, from) {
        lemma_find_at(s, needle, from + 1);
    }
}

/// The first position at or after `from` where `needle` stands in `cs`.
pub fn find_from(cs: &[char], needle: &[char], from: usize) -> (r: Option<usize>)
    ensures
        r matches Some(at) ==> find_at(cs@, needle@, from as int) == Some(at as int) && at
            <= cs@.len(),
        r is None ==> find_at(cs@, needle@, from as int) is None,
{
    let mut at: usize = from;
    let n: usize = cs.len();
    while at <= n && needle.len() <= n - at
        invariant
            n == cs@.len(),
            find_at(cs@, needle@, from as int) == find_at(cs@, needle@, at as int),
        decreases n + 1 - at,
    {
        if matches_at(cs, needle, at) {
            return Some(at);
        }
        if at == n {
            assert(find_at(cs@, needle@, at + 1) is None);
            return None;
        }
        at = at + 1;
    }
    None
}

/// Whether `c` is an ASCII letter or digit.
pub open spec fn ascii_alphanumeric(c: char) -> bool {
    ('a' <= c <= 'z') || ('A' <= c <= 'Z') || ('0' <= c <= '9')
}

/// Whether two texts are the same but for the case of ASCII letters.
pub fn eq_ignore_ascii_case(a: &str, b: &str) -> (r: bool)
    ensures
        r == same_ignoring_ascii_case(a@, b@),
{
    let xs = chars_of(a);
    let ys = chars_of(b);
    if xs.len() != ys.len() {
        return false;
    }
    let mut k: usize = 0;
    while k < xs.len()
        invariant
            k <= xs@.len(),
            xs@.len() == ys@.len(),
            xs@ == a@,
            ys@ == b@,
            forall|i: int| 0 <= i < k ==> ascii_lower(#[trigger] xs@[i]) == ascii_lower(ys@[i]),
        decreases xs@.len() - k,
    {
        if lower_ascii(xs[k]) != lower_ascii(ys[k]) {
            assert(ascii_lower(a@[k as int]) != ascii_lower(b@[k as int]));
            return false;
        }
        k = k + 1;
    }
    true
}

/// The ASCII lower-case form of `c`.
pub fn lower_ascii(c: char) -> (r: char)
    ensures
        r == ascii_lower(c),
{
    if 'A' <= c && c <= 'Z' {
        (c as u8 + 32) as char
    } else {
        c
    }
}

/// Whether `needle` stands somewhere in `s`.
pub fn contains(s: &str, needle: &str) -> (r: bool)
    ensures
        r == occurs(s@, needle@),
{
    let cs = chars_of(s);
    let ps = chars_of(needle);
    let found = find_from(cs.as_slice(), ps.as_slice(), 0);
    proof {
        lemma_find_at(s@, needle@, 0);
    }
    match found {
        Some(at) => {
            assert(occurs_at(s@, needle@, at as int));
            true
        },
        None => false,
    }
}

/// Whether two texts are the same.
pub fn same_text(a: &str, b: &str) -> (r: bool)
    ensures
        r == (a@ == b@),
{
    let xs = chars_of(a);
    let ys = chars_of(b);
    if xs.len() != ys.len() {
        return false;
    }
    let same = matches_at(xs.as_slice(), ys.as_slice(), 0);
    assert(xs@.subrange(0, xs@.len() as int) =~= xs@);
    same
}

/// The first character of `s`, if it has one.
pub fn first_char(s: &str) -> (r: Option<char>)
    ensures
        r == (if s@.len() == 0 { None::<char> } else { Some(s@[0]) }),
{
    if s.is_empty() {
        None
    } else {
        Some(s.get_char(0))
    }
}

/// The lines of `s`, which line feeds separate.
pub fn split_lines(s: &str) -> (r: Vec<String>)
    ensures
        texts(r@) == lines_of(s@),
{
    let cs = chars_of(s);
    let mut out: Vec<String> = Vec::new();
    let mut start: usize = 0;
    let mut index: usize = 0;
    proof {
        assert(s@.take(0) =~= Seq::empty());
        assert(texts(out@).push(s@.subrange(0, 0)) =~= lines_of(s@.take(0)));
    }
    while index < cs.len()
        invariant
            cs@ == s@,
            start <= index <= s@.len(),
            texts(out@).push(s@.subrange(start as int, index as int)) == lines_of(
                s@.take(index as int),
            ),
        decreases s@.len() - index,
    {
        let ghost before = out@;
        let ghost old_start = start as int;
        proof {
            assert(s@.take(index + 1).drop_last() =~= s@.take(index as int));
            assert(s@.take(index + 1).last() == s@[index as int]);
        }
        if cs[index] == '\n' {
            out.push(String::from_str(slice_text(s, start, index)));
            start = index + 1;
            proof {
                assert(texts(out@) =~= texts(before).push(s@.subrange(old_start, index as int)));
                assert(s@.subrange(start as int, index + 1) =~= Seq::empty());
            }
        } else {
            proof {
                let cell = s@.subrange(old_start, index as int);
                assert(s@.subrange(old_start, index + 1) =~= cell.push(s@[index as int]));
                let all = texts(before).push(cell);
                assert(all.update(all.len() - 1, all.last().push(s@[index as int])) =~= texts(
                    before,
                ).push(s@.subrange(old_start, index + 1)));
            }
        }
        index = index + 1;
    }
    let ghost before = out@;
    out.push(String::from_str(slice_text(s, start, cs.len())));
    proof {
        assert(texts(out@) =~= texts(before).push(s@.subrange(start as int, s@.len() as int)));
        assert(s@.take(s@.len() as int) =~= s@);
    }
    out
}

/// `lines[from..to]` joined by a line feed between each two.
pub fn join_lines(lines: &[String], from: usize, to: usize) -> (r: String)
    requires
        from <= to <= lines@.len(),
    ensures
        r@ == joined(texts(lines@).subrange(from as int, to as int)),
{
    let mut out = String::new();
    let ghost region = texts(lines@).subrange(from as int, to as int);
    let mut index: usize = from;
    while index < to
        invariant
            from <= index <= to <= lines@.len(),
            region == texts(lines@).subrange(from as int, to as int),
            out@ == joined(region.take(index - from)),
        decreases to - index,
    {
        if index > from {
            out.append("\n");
        }
        out.append(lines[index].as_str());
        proof {
            reveal_strlit("\n");
            let next = region.take(index + 1 - from);
            assert(next.drop_last() =~= region.take(index - from));
            assert(next.last() == lines@[index as int]@);
            assert("\n"@ =~= seq!['\n']);
            if index == from {
                assert(region.take(0).len() == 0);
                assert(out@ =~= next[0]);
            } else {
                assert(out@ =~= joined(next.drop_last()) + seq!['\n'] + next.last());
            }
        }
        index = index + 1;
    }
    assert(region.take(to - from) =~= region);
    out
}

/// `String::push` of the standard library puts a character at the end of a
/// string.
pub assume_specification[ String::push ](s: &mut String, c: char)
    ensures
        final(s)@ == old(s)@.push(c),
;

} // verus!
