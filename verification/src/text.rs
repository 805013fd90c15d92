//! Character-level helpers shared by the other modules.

use crate::host::HostKind;
use vstd::prelude::*;

verus! {

/// The views of the strings of `v`, in order.
pub open spec fn string_views(v: Seq<String>) -> Seq<Seq<char>> {
    Seq::new(v.len(), |i: int| v[i]@)
}

/// The ASCII lower-case form of `c`; characters outside `A..=Z` are unchanged.
pub open spec fn ascii_lower(c: char) -> char {
    if 'A' <= c && c <= 'Z' {
        ((c as u32) + 32) as char
    } else {
        c
    }
}

/// `s` with every character replaced by its ASCII lower-case form.
pub open spec fn ascii_fold(s: Seq<char>) -> Seq<char> {
    Seq::new(s.len(), |i: int| ascii_lower(s[i]))
}

/// Whether `name` ends in `.wad`, compared without regard to ASCII case.
pub open spec fn is_wad_name(name: Seq<char>) -> bool {
    let n = name.len() as int;
    &&& n >= 4
    &&& name[n - 4] == '.'
    &&& ascii_lower(name[n - 3]) == 'w'
    &&& ascii_lower(name[n - 2]) == 'a'
    &&& ascii_lower(name[n - 1]) == 'd'
}

/// Whether `c` is white space: the characters that `str::trim` removes.
pub open spec fn is_whitespace(c: char) -> bool {
    ||| ('\u{9}' <= c && c <= '\u{D}')
    ||| c == ' '
    ||| c == '\u{85}'
    ||| c == '\u{A0}'
    ||| c == '\u{1680}'
    ||| ('\u{2000}' <= c && c <= '\u{200A}')
    ||| c == '\u{2028}'
    ||| c == '\u{2029}'
    ||| c == '\u{202F}'
    ||| c == '\u{205F}'
    ||| c == '\u{3000}'
}

/// The index of the first occurrence of `c` in `s`, or `s.len()` if there is none.
pub open spec fn first_index(s: Seq<char>, c: char) -> int
    decreases s.len(),
{
    if s.len() == 0 || s[0] == c {
        0
    } else {
        1 + first_index(s.drop_first(), c)
    }
}

/// Whether `c` ends a path component on `host`: `/` does on every host; on
/// Windows so do `\\` and `:`.
pub open spec fn is_separator(c: char, host: HostKind) -> bool {
    c == '/' || (host == HostKind::Windows && (c == '\\' || c == ':'))
}

/// Whether `name` holds no separator of `host`, so that it names a file of a
/// directory and nothing beneath or outside it.
pub open spec fn is_plain_name(name: Seq<char>, host: HostKind) -> bool {
    forall|i: int| 0 <= i < name.len() ==> !is_separator(#[trigger] name[i], host)
}

/// Where the final path component of `s` starts, by the separators of `host`:
/// just behind the last separator, or at 0 if `s` holds none.
pub open spec fn final_component_start(s: Seq<char>, host: HostKind) -> int
    decreases s.len(),
{
    if s.len() == 0 {
        0
    } else if is_separator(s.last(), host) {
        s.len() as int
    } else {
        final_component_start(s.drop_last(), host)
    }
}

/// The final path component of `s`, by the separators of `host`: what stands
/// behind the last separator. It holds no separator, and is empty if `s` is
/// empty or ends in a separator.
pub open spec fn final_component(s: Seq<char>, host: HostKind) -> Seq<char> {
    s.skip(final_component_start(s, host))
}

/// `s` without its leading white space.
pub open spec fn trim_start(s: Seq<char>) -> Seq<char>
    decreases s.len(),
{
    if s.len() > 0 && is_whitespace(s[0]) {
        trim_start(s.drop_first())
    } else {
        s
    }
}

/// `s` without its trailing white space.
pub open spec fn trim_end(s: Seq<char>) -> Seq<char>
    decreases s.len(),
{
    if s.len() > 0 && is_whitespace(s.last()) {
        trim_end(s.drop_last())
    } else {
        s
    }
}

/// `s` without leading and trailing white space.
pub open spec fn trim(s: Seq<char>) -> Seq<char> {
    trim_end(trim_start(s))
}

/// `line` without one trailing carriage return.
pub open spec fn strip_cr(line: Seq<char>) -> Seq<char> {
    if line.len() > 0 && line.last() == '\r' {
        line.drop_last()
    } else {
        line
    }
}

/// The lines of `s`. A line ends at `\n` or at the end of the text; the `\n` and a
/// carriage return just before it are not part of the line; a text that ends in
/// `\n` has no empty last line.
pub open spec fn lines(s: Seq<char>) -> Seq<Seq<char>>
    decreases s.len(),
{
    let k = first_index(s, '\n');
    if s.len() == 0 {
        Seq::empty()
    } else if 0 <= k < s.len() {
        seq![strip_cr(s.take(k))] + lines(s.skip(k + 1))
    } else {
        seq![s]
    }
}

/// What [`first_index`] finds: the place of the first `c`, with no `c` before it.
pub proof fn lemma_first_index_bounds(s: Seq<char>, c: char)
    ensures
        0 <= first_index(s, c) <= s.len(),
        first_index(s, c) < s.len() ==> s[first_index(s, c)] == c,
        forall|j: int| 0 <= j < first_index(s, c) ==> s[j] != c,
    decreases s.len(),
{
    if s.len() == 0 || s[0] == c {
    } else {
        let t = s.drop_first();
        lemma_first_index_bounds(t, c);
        assert forall|j: int| 0 <= j < first_index(s, c) implies s[j] != c by {
            if j > 0 {
                assert(t[j - 1] == s[j]);
            }
        }
    }
}

/// What [`final_component_start`] finds: the place behind the last separator,
/// with no separator from there on.
pub proof fn lemma_final_component_start_bounds(s: Seq<char>, host: HostKind)
    ensures
        0 <= final_component_start(s, host) <= s.len(),
        final_component_start(s, host) > 0 ==> is_separator(
            s[final_component_start(s, host) - 1],
            host,
        ),
        forall|j: int| final_component_start(s, host) <= j < s.len() ==> !is_separator(s[j], host),
    decreases s.len(),
{
    if s.len() == 0 || is_separator(s.last(), host) {
    } else {
        let t = s.drop_last();
        lemma_final_component_start_bounds(t, host);
        assert forall|j: int| final_component_start(s, host) <= j < s.len() implies !is_separator(
            s[j],
            host,
        ) by {
            if j < t.len() {
                assert(t[j] == s[j]);
            }
        }
    }
}

/// Whether `line` holds no line feed.
pub open spec fn no_newline(line: Seq<char>) -> bool {
    forall|j: int| 0 <= j < line.len() ==> line[j] != '\n'
}

/// Where `c` stands at `k` in `s` and nowhere before, or nowhere at all and `k`
/// is the length of `s`, [`first_index`] is `k`.
pub proof fn lemma_first_index_is(s: Seq<char>, c: char, k: int)
    requires
        0 <= k <= s.len(),
        forall|j: int| 0 <= j < k ==> s[j] != c,
        k < s.len() ==> s[k] == c,
    ensures
        first_index(s, c) == k,
    decreases k,
{
    if k > 0 {
        let t = s.drop_first();
        assert(s[0] != c);
        assert forall|j: int| 0 <= j < k - 1 implies t[j] != c by {
            assert(t[j] == s[j + 1]);
        }
        if k < s.len() {
            assert(t[k - 1] == s[k]);
        }
        lemma_first_index_is(t, c, k - 1);
    }
}

/// No white space at its end is lost to [`trim`]: a text that ends in white
/// space trims to what it trims to without its last character.
pub proof fn lemma_trim_ignores_last_whitespace(s: Seq<char>)
    requires
        s.len() > 0,
        is_whitespace(s.last()),
    ensures
        trim(s) == trim(s.drop_last()),
    decreases s.len(),
{
    if s.len() == 1 {
        assert(s.drop_first() =~= Seq::<char>::empty());
        assert(s.drop_last() =~= Seq::<char>::empty());
    } else if is_whitespace(s[0]) {
        let t = s.drop_first();
        assert(t.last() == s.last());
        lemma_trim_ignores_last_whitespace(t);
        assert(s.drop_last().drop_first() =~= t.drop_last());
        assert(s.drop_last()[0] == s[0]);
    } else {
        assert(s.drop_last()[0] == s[0]);
    }
}

/// The lines of a line without line feed, a line feed and a text are the line,
/// less a carriage return at its end, and the lines of the text.
pub proof fn lemma_lines_first(first: Seq<char>, rest: Seq<char>)
    requires
        no_newline(first),
    ensures
        lines(first + seq!['\n'] + rest) == seq![strip_cr(first)] + lines(rest),
{
    let s = first + seq!['\n'] + rest;
    let k = first.len() as int;
    assert forall|j: int| 0 <= j < k implies s[j] != '\n' by {
        assert(s[j] == first[j]);
    }
    assert(s[k] == '\n');
    lemma_first_index_is(s, '\n', k);
    assert(s.take(k) =~= first);
    assert(s.skip(k + 1) =~= rest);
}

/// The lines of a text without line feed: the text itself, or none if it is
/// empty.
pub proof fn lemma_lines_single(line: Seq<char>)
    requires
        no_newline(line),
    ensures
        lines(line) == if line.len() == 0 {
            Seq::<Seq<char>>::empty()
        } else {
            seq![line]
        },
{
    lemma_first_index_is(line, '\n', line.len() as int);
}

/// The characters of `s`, in order.
pub fn chars_of(s: &str) -> (out: Vec<char>)
    ensures
        out@ == s@,
{
    let mut out: Vec<char> = Vec::new();
    let chars = s.chars();
    for c in it: chars
        invariant
            out@ == it.seq().take(it.index()),
            it.seq() == s@,
    {
        out.push(c);
    }
    out
}

/// Computes [`ascii_lower`].
pub fn to_ascii_lower(c: char) -> (out: char)
    ensures
        out == ascii_lower(c),
{
    if 'A' <= c && c <= 'Z' {
        let code: u32 = c as u32;
        let lowered: u8 = (code + 32) as u8;
        lowered as char
    } else {
        c
    }
}

/// Computes [`is_whitespace`].
pub fn char_is_whitespace(c: char) -> (out: bool)
    ensures
        out == is_whitespace(c),
{
    ('\u{9}' <= c && c <= '\u{D}') || c == ' ' || c == '\u{85}' || c == '\u{A0}' || c == '\u{1680}'
        || ('\u{2000}' <= c && c <= '\u{200A}') || c == '\u{2028}' || c == '\u{2029}'
        || c == '\u{202F}' || c == '\u{205F}' || c == '\u{3000}'
}

/// Computes [`is_wad_name`] on the characters of a name.
pub fn chars_are_wad_name(name: &Vec<char>) -> (out: bool)
    ensures
        out == is_wad_name(name@),
{
    let n = name.len();
    n >= 4 && name[n - 4] == '.' && to_ascii_lower(name[n - 3]) == 'w' && to_ascii_lower(
        name[n - 2],
    ) == 'a' && to_ascii_lower(name[n - 1]) == 'd'
}

/// Computes [`is_wad_name`].
pub fn has_wad_suffix(name: &str) -> (out: bool)
    ensures
        out == is_wad_name(name@),
{
    let chars = chars_of(name);
    chars_are_wad_name(&chars)
}

/// Whether two strings hold the same characters.
pub fn same_text(a: &str, b: &str) -> (out: bool)
    ensures
        out == (a@ == b@),
{
    let x = chars_of(a);
    let y = chars_of(b);
    if x.len() != y.len() {
        return false;
    }
    let mut i: usize = 0;
    while i < x.len()
        invariant
            i <= x.len(),
            x.len() == y.len(),
            x@ == a@,
            y@ == b@,
            x@.take(i as int) == y@.take(i as int),
        decreases x.len() - i,
    {
        if x[i] != y[i] {
            assert(a@[i as int] != b@[i as int]);
            return false;
        }
        proof {
            assert(x@.take(i + 1) =~= x@.take(i as int).push(x@[i as int]));
            assert(y@.take(i + 1) =~= y@.take(i as int).push(y@[i as int]));
        }
        i += 1;
    }
    proof {
        assert(x@.take(x.len() as int) =~= x@);
        assert(y@.take(y.len() as int) =~= y@);
    }
    true
}

/// The index in `chars[from..to]` of the first `c`, or `to` if there is none.
pub(crate) fn find_char(chars: &Vec<char>, from: usize, to: usize, c: char) -> (k: usize)
    requires
        from <= to <= chars.len(),
    ensures
        from <= k <= to,
        k == from + first_index(chars@.subrange(from as int, to as int), c),
{
    let mut i: usize = from;
    while i < to && chars[i] != c
        invariant
            from <= i <= to <= chars.len(),
            first_index(chars@.subrange(from as int, to as int), c) == (i - from) + first_index(
                chars@.subrange(i as int, to as int),
                c,
            ),
        decreases to - i,
    {
        proof {
            let sub = chars@.subrange(i as int, to as int);
            assert(sub[0] == chars@[i as int]);
            assert(sub.drop_first() =~= chars@.subrange(i + 1, to as int));
        }
        i += 1;
    }
    proof {
        let sub = chars@.subrange(i as int, to as int);
        if i < to {
            assert(sub[0] == chars@[i as int]);
        }
    }
    i
}

/// Computes [`is_separator`].
pub fn char_is_separator(c: char, host: HostKind) -> (out: bool)
    ensures
        out == is_separator(c, host),
{
    match host {
        HostKind::Windows => c == '/' || c == '\\' || c == ':',
        _ => c == '/',
    }
}

/// Computes [`final_component_start`].
pub fn find_final_component(chars: &Vec<char>, host: HostKind) -> (k: usize)
    ensures
        k == final_component_start(chars@, host),
        k <= chars.len(),
{
    let mut i: usize = chars.len();
    proof {
        assert(chars@.take(i as int) =~= chars@);
    }
    while i > 0 && !char_is_separator(chars[i - 1], host)
        invariant
            i <= chars.len(),
            final_component_start(chars@, host) == final_component_start(
                chars@.take(i as int),
                host,
            ),
        decreases i,
    {
        proof {
            let t = chars@.take(i as int);
            assert(t.last() == chars@[i - 1]);
            assert(t.drop_last() =~= chars@.take(i - 1));
        }
        i -= 1;
    }
    proof {
        let t = chars@.take(i as int);
        if i > 0 {
            assert(t.last() == chars@[i - 1]);
        }
    }
    i
}

/// Computes [`final_component`].
pub fn final_component_of(s: &str, host: HostKind) -> (out: String)
    ensures
        out@ == final_component(s@, host),
{
    let chars = chars_of(s);
    let start = find_final_component(&chars, host);
    let out = substring(s, start, chars.len());
    proof {
        assert(s@.subrange(start as int, chars.len() as int) =~= final_component(s@, host));
    }
    out
}

/// The bounds within `chars[from..to]` of what [`trim`] keeps of it.
pub(crate) fn trim_range(chars: &Vec<char>, from: usize, to: usize) -> (r: (usize, usize))
    requires
        from <= to <= chars.len(),
    ensures
        from <= r.0 <= r.1 <= to,
        chars@.subrange(r.0 as int, r.1 as int) == trim(chars@.subrange(from as int, to as int)),
{
    let mut a: usize = from;
    while a < to && char_is_whitespace(chars[a])
        invariant
            from <= a <= to <= chars.len(),
            trim_start(chars@.subrange(from as int, to as int)) == trim_start(
                chars@.subrange(a as int, to as int),
            ),
        decreases to - a,
    {
        proof {
            let sub = chars@.subrange(a as int, to as int);
            assert(sub[0] == chars@[a as int]);
            assert(sub.drop_first() =~= chars@.subrange(a + 1, to as int));
        }
        a += 1;
    }
    proof {
        let sub = chars@.subrange(a as int, to as int);
        if a < to {
            assert(sub[0] == chars@[a as int]);
        }
        assert(trim_start(sub) == sub);
    }
    let mut b: usize = to;
    while b > a && char_is_whitespace(chars[b - 1])
        invariant
            a <= b <= to <= chars.len(),
            trim_end(chars@.subrange(a as int, to as int)) == trim_end(
                chars@.subrange(a as int, b as int),
            ),
        decreases b,
    {
        proof {
            let sub = chars@.subrange(a as int, b as int);
            assert(sub.last() == chars@[b - 1]);
            assert(sub.drop_last() =~= chars@.subrange(a as int, b - 1));
        }
        b -= 1;
    }
    proof {
        let sub = chars@.subrange(a as int, b as int);
        if b > a {
            assert(sub.last() == chars@[b - 1]);
        }
        assert(trim_end(sub) == sub);
    }
    (a, b)
}

/// The characters `from..to` of `s` as a string of their own.
pub(crate) fn substring(s: &str, from: usize, to: usize) -> (out: String)
    requires
        from <= to <= s@.len(),
    ensures
        out@ == s@.subrange(from as int, to as int),
{
    s.substring_char(from, to).to_owned()
}

/// Computes [`lines`].
pub fn split_lines(s: &str) -> (out: Vec<String>)
    ensures
        string_views(out@) == lines(s@),
{
    let chars = chars_of(s);
    let n = chars.len();
    let mut out: Vec<String> = Vec::new();
    let mut pos: usize = 0;
    proof {
        assert(s@.skip(0) =~= s@);
        assert(string_views(out@) =~= Seq::<Seq<char>>::empty());
    }
    while pos < n
        invariant
            pos <= n,
            n == chars.len(),
            chars@ == s@,
            lines(s@) == string_views(out@) + lines(s@.skip(pos as int)),
        decreases n - pos,
    {
        let k = find_char(&chars, pos, n, '\n');
        let ghost rest = s@.skip(pos as int);
        let ghost before = out@;
        proof {
            assert(rest =~= chars@.subrange(pos as int, n as int));
            lemma_first_index_bounds(rest, '\n');
        }
        if k < n {
            let end = if k > pos && chars[k - 1] == '\r' {
                k - 1
            } else {
                k
            };
            let line = substring(s, pos, end);
            proof {
                let raw = rest.take(k - pos);
                assert(raw =~= s@.subrange(pos as int, k as int));
                if raw.len() > 0 {
                    assert(raw.last() == chars@[k - 1]);
                }
                assert(strip_cr(raw) =~= s@.subrange(pos as int, end as int));
                assert(rest.skip(k - pos + 1) =~= s@.skip(k + 1));
            }
            out.push(line);
            proof {
                assert(string_views(out@) =~= string_views(before) + seq![line@]);
            }
            pos = k + 1;
        } else {
            let line = substring(s, pos, n);
            proof {
                assert(rest =~= s@.subrange(pos as int, n as int));
                assert(lines(s@.skip(n as int)) =~= Seq::<Seq<char>>::empty());
            }
            out.push(line);
            proof {
                assert(string_views(out@) =~= string_views(before) + seq![line@]);
            }
            pos = n;
        }
    }
    proof {
        assert(lines(s@.skip(pos as int)) =~= Seq::<Seq<char>>::empty());
    }
    out
}

} // verus!
