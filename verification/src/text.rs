//! Character-level text helpers.
//!
//! Every text the library reads or writes is modelled as a `Seq<char>`. The
//! executable code works on `Vec<char>` buffers and converts to and from
//! `String` at the edges.

use vstd::prelude::*;

verus! {

/// `String::push` of the standard library: appends the character `c` to the
/// end of the string, leaving what was there before in place.
pub assume_specification[ std::string::String::push ](s: &mut std::string::String, c: char)
    ensures
        final(s)@ == old(s)@.push(c),
;

/// White space as Unicode defines it (the code points with the `White_Space`
/// property).
pub open spec fn is_space(c: char) -> bool {
    let n = c as u32;
    ||| 0x09 <= n <= 0x0D
    ||| n == 0x20
    ||| n == 0x85
    ||| n == 0xA0
    ||| n == 0x1680
    ||| 0x2000 <= n <= 0x200A
    ||| n == 0x2028
    ||| n == 0x2029
    ||| n == 0x202F
    ||| n == 0x205F
    ||| n == 0x3000
}

/// The first position at or after `from` that holds no white space, or the
/// length of `s` when only white space follows.
pub open spec fn skip_spaces(s: Seq<char>, from: int) -> int
    decreases s.len() - from,
{
    if 0 <= from < s.len() && is_space(s[from]) {
        skip_spaces(s, from + 1)
    } else {
        from
    }
}

/// The number of white-space characters a line starts with.
pub open spec fn indent_of(s: Seq<char>) -> int {
    skip_spaces(s, 0)
}

/// `s` without its leading white space.
pub open spec fn trim_start(s: Seq<char>) -> Seq<char> {
    s.skip(indent_of(s))
}

/// `s` without its trailing white space.
pub open spec fn trim_end(s: Seq<char>) -> Seq<char>
    decreases s.len(),
{
    if s.len() > 0 && is_space(s.last()) {
        trim_end(s.drop_last())
    } else {
        s
    }
}

/// `s` without white space at either end.
pub open spec fn trim(s: Seq<char>) -> Seq<char> {
    trim_end(trim_start(s))
}

/// The first position at or after `from` that holds `c`, or the length of `s`
/// when `c` does not occur there.
pub open spec fn index_of(s: Seq<char>, c: char, from: int) -> int
    decreases s.len() - from,
{
    if 0 <= from < s.len() {
        if s[from] == c {
            from
        } else {
            index_of(s, c, from + 1)
        }
    } else {
        s.len() as int
    }
}

/// The pieces of `s` from position `from` on, cut at every `c`. There is
/// always at least one piece; the separators belong to none.
pub open spec fn pieces_from(s: Seq<char>, c: char, from: int) -> Seq<Seq<char>>
    decreases s.len() - from,
{
    let at = index_of(s, c, from);
    if 0 <= from <= at < s.len() {
        seq![s.subrange(from, at)] + pieces_from(s, c, at + 1)
    } else if 0 <= from <= s.len() {
        seq![s.subrange(from, s.len() as int)]
    } else {
        seq![Seq::empty()]
    }
}

/// `s` cut at every `c`.
pub open spec fn split_on(s: Seq<char>, c: char) -> Seq<Seq<char>> {
    pieces_from(s, c, 0)
}

/// `s` cut at its first `c`: what stands before it and what stands after it.
/// `None` when `c` does not occur.
pub open spec fn split_once(s: Seq<char>, c: char) -> Option<(Seq<char>, Seq<char>)> {
    let at = index_of(s, c, 0);
    if at < s.len() {
        Some((s.take(at), s.skip(at + 1)))
    } else {
        None
    }
}

/// A line as it was cut at a line feed, without the carriage return that may
/// stand before the line feed.
pub open spec fn strip_cr(line: Seq<char>) -> Seq<char> {
    if line.len() > 0 && line.last() == '\r' {
        line.drop_last()
    } else {
        line
    }
}

/// The lines of `s` from position `from` on. A line ends at a line feed or
/// at a carriage return followed by a line feed; the last line needs no line
/// ending, and an empty rest holds no line.
pub open spec fn lines_from(s: Seq<char>, from: int) -> Seq<Seq<char>>
    decreases s.len() - from,
{
    let at = index_of(s, '\n', from);
    if 0 <= from <= at < s.len() {
        seq![strip_cr(s.subrange(from, at))] + lines_from(s, at + 1)
    } else if 0 <= from < s.len() {
        seq![s.subrange(from, s.len() as int)]
    } else {
        Seq::empty()
    }
}

/// The lines of a text.
pub open spec fn lines_of(s: Seq<char>) -> Seq<Seq<char>> {
    lines_from(s, 0)
}

/// The parts put together again with `sep` between each two of them.
pub open spec fn join(parts: Seq<Seq<char>>, sep: Seq<char>) -> Seq<char>
    decreases parts.len(),
{
    if parts.len() == 0 {
        Seq::empty()
    } else if parts.len() == 1 {
        parts[0]
    } else {
        join(parts.drop_last(), sep) + sep + parts.last()
    }
}

/// Whether `s` begins with `prefix`.
pub open spec fn starts_with(s: Seq<char>, prefix: Seq<char>) -> bool {
    prefix.len() <= s.len() && s.take(prefix.len() as int) == prefix
}

/// The views of a vector of strings, in order.
pub open spec fn strings_view(v: Seq<String>) -> Seq<Seq<char>> {
    Seq::new(v.len(), |i: int| v[i]@)
}

/// The views of a vector of character buffers, in order.
pub open spec fn buffers_view(v: Seq<Vec<char>>) -> Seq<Seq<char>> {
    Seq::new(v.len(), |i: int| v[i]@)
}

/// What a search for `c` from `from` on says of `s`.
pub proof fn lemma_index_of_bounds(s: Seq<char>, c: char, from: int)
    requires
        0 <= from <= s.len(),
    ensures
        from <= index_of(s, c, from) <= s.len(),
        forall|i: int| from <= i < index_of(s, c, from) ==> #[trigger] s[i] != c,
        index_of(s, c, from) < s.len() ==> s[index_of(s, c, from)] == c,
    decreases s.len() - from,
{
    if from < s.len() && s[from] != c {
        lemma_index_of_bounds(s, c, from + 1);
    }
}

/// `c` occurs in `s` exactly when a search from the start finds it.
pub proof fn lemma_index_of_contains(s: Seq<char>, c: char)
    ensures
        s.contains(c) <==> index_of(s, c, 0) < s.len(),
{
    lemma_index_of_bounds(s, c, 0);
    if s.contains(c) {
        let i = choose|i: int| 0 <= i < s.len() && s[i] == c;
        assert(s[i] == c);
    }
}

/// A search in a text that goes on behind `a` finds within `a` what a search
/// in `a` alone finds.
pub proof fn lemma_index_of_within(a: Seq<char>, rest: Seq<char>, c: char, from: int)
    requires
        0 <= from <= a.len(),
    ensures
        index_of(a, c, from) < a.len() ==> index_of(a + rest, c, from) == index_of(a, c, from),
        index_of(a, c, from) == a.len() && rest.len() > 0 && rest[0] == c ==> index_of(
            a + rest,
            c,
            from,
        ) == a.len(),
    decreases a.len() - from,
{
    let s = a + rest;
    if from < a.len() {
        assert(s[from] == a[from]);
        if a[from] != c {
            lemma_index_of_within(a, rest, c, from + 1);
        }
    } else if rest.len() > 0 && rest[0] == c {
        assert(s[from] == rest[0]);
    }
}

/// A search behind `x` in `x + y` finds what a search in `y` finds, `x.len()`
/// places further on.
pub proof fn lemma_index_of_behind(x: Seq<char>, y: Seq<char>, c: char, k: int)
    requires
        0 <= k <= y.len(),
    ensures
        index_of(x + y, c, x.len() + k) == x.len() + index_of(y, c, k),
    decreases y.len() - k,
{
    let s = x + y;
    if k < y.len() {
        assert(s[x.len() + k] == y[k]);
        if y[k] != c {
            lemma_index_of_behind(x, y, c, k + 1);
        }
    }
}

/// The pieces of `x + y` from a place in `y` on are the pieces of `y` from
/// that place on.
pub proof fn lemma_pieces_behind(x: Seq<char>, y: Seq<char>, c: char, k: int)
    requires
        0 <= k <= y.len(),
    ensures
        pieces_from(x + y, c, x.len() + k) == pieces_from(y, c, k),
    decreases y.len() - k,
{
    let s = x + y;
    lemma_index_of_behind(x, y, c, k);
    lemma_index_of_bounds(y, c, k);
    let at = index_of(y, c, k);
    assert(s.subrange(x.len() + k, x.len() + at) == y.subrange(k, at));
    if at < y.len() {
        lemma_pieces_behind(x, y, c, at + 1);
    } else {
        assert(s.subrange(x.len() + k, s.len() as int) == y.subrange(k, y.len() as int));
    }
}

/// The pieces of two texts with a `c` between them are the pieces of the
/// first and then the pieces of the second.
pub proof fn lemma_pieces_of_two(a: Seq<char>, b: Seq<char>, c: char, from: int)
    requires
        0 <= from <= a.len(),
    ensures
        pieces_from(a + seq![c] + b, c, from) == pieces_from(a, c, from) + pieces_from(b, c, 0),
    decreases a.len() - from,
{
    let rest = seq![c] + b;
    let s = a + seq![c] + b;
    assert(s == a + rest);
    lemma_index_of_within(a, rest, c, from);
    lemma_index_of_bounds(a, c, from);
    let at = index_of(a, c, from);
    assert(s.subrange(from, at) == a.subrange(from, at));
    if at < a.len() {
        lemma_pieces_of_two(a, b, c, at + 1);
        assert(pieces_from(s, c, from) == seq![a.subrange(from, at)] + pieces_from(s, c, at + 1));
        assert(seq![a.subrange(from, at)] + (pieces_from(a, c, at + 1) + pieces_from(b, c, 0))
            == (seq![a.subrange(from, at)] + pieces_from(a, c, at + 1)) + pieces_from(b, c, 0));
    } else {
        assert(s == (a + seq![c]) + b);
        lemma_pieces_behind(a + seq![c], b, c, 0);
        assert(pieces_from(a, c, from) == seq![a.subrange(from, a.len() as int)]);
    }
}

/// A text without `c` is one piece.
pub proof fn lemma_one_piece(s: Seq<char>, c: char)
    requires
        !s.contains(c),
    ensures
        split_on(s, c) == seq![s],
{
    lemma_index_of_contains(s, c);
    lemma_index_of_bounds(s, c, 0);
    assert(s.subrange(0, s.len() as int) == s);
}

/// Parts that hold no `c`, joined with `c` between them and cut again at
/// every `c`, are the parts.
pub proof fn lemma_split_of_join(parts: Seq<Seq<char>>, c: char)
    requires
        parts.len() > 0,
        forall|i: int| 0 <= i < parts.len() ==> !(#[trigger] parts[i]).contains(c),
    ensures
        split_on(join(parts, seq![c]), c) == parts,
    decreases parts.len(),
{
    if parts.len() == 1 {
        lemma_one_piece(parts[0], c);
        assert(parts == seq![parts[0]]);
    } else {
        let head = parts.drop_last();
        assert forall|i: int| 0 <= i < head.len() implies !(#[trigger] head[i]).contains(c) by {
            assert(head[i] == parts[i]);
        }
        lemma_split_of_join(head, c);
        lemma_pieces_of_two(join(head, seq![c]), parts.last(), c, 0);
        lemma_one_piece(parts.last(), c);
        assert(head + seq![parts.last()] == parts);
    }
}

/// Whether `c` is white space.
pub fn is_whitespace(c: char) -> (r: bool)
    ensures
        r == is_space(c),
{
    let n: u32 = c as u32;
    (0x09 <= n && n <= 0x0D) || n == 0x20 || n == 0x85 || n == 0xA0 || n == 0x1680 || (0x2000 <= n
        && n <= 0x200A) || n == 0x2028 || n == 0x2029 || n == 0x202F || n == 0x205F || n == 0x3000
}

/// The characters of `s`.
pub fn chars_of(s: &str) -> (r: Vec<char>)
    ensures
        r@ == s@,
{
    let mut out: Vec<char> = Vec::new();
    for c in it: s.chars()
        invariant
            out@ == it.seq().take(it.index() as int),
    {
        out.push(c);
    }
    out
}

/// The string made of `chars`.
pub fn string_of(chars: &Vec<char>) -> (r: String)
    ensures
        r@ == chars@,
{
    let mut out = String::new();
    let mut i: usize = 0;
    while i < chars.len()
        invariant
            i <= chars.len(),
            out@ == chars@.take(i as int),
        decreases chars.len() - i,
    {
        out.push(chars[i]);
        i += 1;
    }
    out
}

/// The characters of `v` from `from` up to, not including, `to`.
pub(crate) fn slice_of(v: &Vec<char>, from: usize, to: usize) -> (r: Vec<char>)
    requires
        from <= to <= v.len(),
    ensures
        r@ == v@.subrange(from as int, to as int),
{
    let mut out: Vec<char> = Vec::new();
    let mut i: usize = from;
    while i < to
        invariant
            from <= i <= to <= v.len(),
            out@ == v@.subrange(from as int, i as int),
        decreases to - i,
    {
        out.push(v[i]);
        i += 1;
    }
    out
}

/// Appends the characters of `tail` to `buf`.
pub fn append_chars(buf: &mut Vec<char>, tail: &Vec<char>)
    ensures
        final(buf)@ == old(buf)@ + tail@,
{
    let mut i: usize = 0;
    while i < tail.len()
        invariant
            i <= tail.len(),
            buf@ == old(buf)@ + tail@.take(i as int),
        decreases tail.len() - i,
    {
        buf.push(tail[i]);
        i += 1;
    }
}

/// Appends the characters of the string `tail` to `buf`.
pub fn append_str(buf: &mut Vec<char>, tail: &str)
    ensures
        final(buf)@ == old(buf)@ + tail@,
{
    let chars = chars_of(tail);
    append_chars(buf, &chars);
}

/// Whether the two buffers hold the same characters.
pub fn same_chars(a: &Vec<char>, b: &Vec<char>) -> (r: bool)
    ensures
        r == (a@ == b@),
{
    if a.len() != b.len() {
        return false;
    }
    let mut i: usize = 0;
    while i < a.len()
        invariant
            i <= a.len(),
            a.len() == b.len(),
            a@.take(i as int) == b@.take(i as int),
        decreases a.len() - i,
    {
        if a[i] != b[i] {
            return false;
        }
        assert(a@.take(i + 1) == a@.take(i as int).push(a@[i as int]));
        assert(b@.take(i + 1) == b@.take(i as int).push(b@[i as int]));
        i += 1;
    }
    assert(a@ == a@.take(a.len() as int));
    assert(b@ == b@.take(b.len() as int));
    true
}

/// The number of white-space characters `line` starts with.
pub fn leading_spaces(line: &Vec<char>) -> (r: usize)
    ensures
        r == indent_of(line@),
        r <= line.len(),
{
    let mut i: usize = 0;
    while i < line.len() && is_whitespace(line[i])
        invariant
            i <= line.len(),
            skip_spaces(line@, i as int) == skip_spaces(line@, 0),
        decreases line.len() - i,
    {
        i += 1;
    }
    i
}

/// The position just behind the last character of `line` that is no white
/// space, looking no further back than `from`.
pub(crate) fn trailing_start(line: &Vec<char>, from: usize) -> (r: usize)
    requires
        from <= line.len(),
    ensures
        from <= r <= line.len(),
        line@.subrange(from as int, r as int) == trim_end(line@.skip(from as int)),
{
    let mut end: usize = line.len();
    assert(line@.subrange(from as int, end as int) == line@.skip(from as int));
    while end > from && is_whitespace(line[end - 1])
        invariant
            from <= end <= line.len(),
            trim_end(line@.subrange(from as int, end as int)) == trim_end(line@.skip(from as int)),
        decreases end,
    {
        assert(line@.subrange(from as int, end as int).drop_last() == line@.subrange(
            from as int,
            end - 1,
        ));
        end -= 1;
    }
    end
}

/// `line` without white space at either end.
pub fn trimmed(line: &Vec<char>) -> (r: Vec<char>)
    ensures
        r@ == trim(line@),
{
    let start = leading_spaces(line);
    let end = trailing_start(line, start);
    slice_of(line, start, end)
}

/// The first position at or after `from` that holds `c`, or the length of
/// `v` when `c` does not occur there.
pub(crate) fn find_char(v: &Vec<char>, c: char, from: usize) -> (r: usize)
    requires
        from <= v.len(),
    ensures
        r == index_of(v@, c, from as int),
        from <= r <= v.len(),
{
    let mut i: usize = from;
    while i < v.len() && v[i] != c
        invariant
            from <= i <= v.len(),
            index_of(v@, c, i as int) == index_of(v@, c, from as int),
        decreases v.len() - i,
    {
        i += 1;
    }
    i
}

/// Whether `c` occurs in `v`.
pub fn has_char(v: &Vec<char>, c: char) -> (r: bool)
    ensures
        r == v@.contains(c),
{
    proof {
        lemma_index_of_contains(v@, c);
    }
    find_char(v, c, 0) < v.len()
}

/// Whether `v` begins with `prefix`.
pub fn has_prefix(v: &Vec<char>, prefix: &Vec<char>) -> (r: bool)
    ensures
        r == starts_with(v@, prefix@),
{
    if prefix.len() > v.len() {
        return false;
    }
    let mut i: usize = 0;
    while i < prefix.len()
        invariant
            i <= prefix.len() <= v.len(),
            v@.take(i as int) == prefix@.take(i as int),
        decreases prefix.len() - i,
    {
        if v[i] != prefix[i] {
            assert(v@.take(prefix.len() as int)[i as int] != prefix@[i as int]);
            return false;
        }
        assert(v@.take(i + 1) == v@.take(i as int).push(v@[i as int]));
        assert(prefix@.take(i + 1) == prefix@.take(i as int).push(prefix@[i as int]));
        i += 1;
    }
    assert(prefix@ == prefix@.take(prefix.len() as int));
    true
}

/// `v` cut at every `c`.
pub fn split_chars(v: &Vec<char>, c: char) -> (r: Vec<Vec<char>>)
    ensures
        buffers_view(r@) == split_on(v@, c),
        r.len() >= 1,
{
    let mut out: Vec<Vec<char>> = Vec::new();
    let mut from: usize = 0;
    loop
        invariant
            from <= v.len(),
            buffers_view(out@) + pieces_from(v@, c, from as int) == split_on(v@, c),
        decreases v.len() - from,
    {
        let at = find_char(v, c, from);
        let piece = slice_of(v, from, at);
        let ghost before = buffers_view(out@);
        out.push(piece);
        assert(buffers_view(out@) == before + seq![v@.subrange(from as int, at as int)]);
        if at < v.len() {
            from = at + 1;
        } else {
            assert(buffers_view(out@) + Seq::<Seq<char>>::empty() == buffers_view(out@));
            return out;
        }
    }
}

/// The lines of `v`.
pub fn split_lines(v: &Vec<char>) -> (r: Vec<Vec<char>>)
    ensures
        buffers_view(r@) == lines_of(v@),
{
    let mut out: Vec<Vec<char>> = Vec::new();
    let mut from: usize = 0;
    while from < v.len()
        invariant
            from <= v.len(),
            buffers_view(out@) + lines_from(v@, from as int) == lines_of(v@),
        decreases v.len() - from,
    {
        let at = find_char(v, '\n', from);
        let ghost before = buffers_view(out@);
        if at < v.len() {
            let end: usize = if at > from && v[at - 1] == '\r' {
                at - 1
            } else {
                at
            };
            let piece = slice_of(v, from, end);
            assert(piece@ == strip_cr(v@.subrange(from as int, at as int)));
            out.push(piece);
            assert(buffers_view(out@) == before + seq![piece@]);
            from = at + 1;
        } else {
            let piece = slice_of(v, from, at);
            out.push(piece);
            assert(buffers_view(out@) == before + seq![v@.subrange(from as int, v.len() as int)]);
            from = at;
        }
    }
    assert(buffers_view(out@) + Seq::<Seq<char>>::empty() == buffers_view(out@));
    out
}

/// The parts put together with `sep` between each two of them.
pub fn join_chars(parts: &Vec<Vec<char>>, sep: &Vec<char>) -> (r: Vec<char>)
    ensures
        r@ == join(buffers_view(parts@), sep@),
{
    let mut out: Vec<char> = Vec::new();
    let mut i: usize = 0;
    while i < parts.len()
        invariant
            i <= parts.len(),
            out@ == join(buffers_view(parts@).take(i as int), sep@),
        decreases parts.len() - i,
    {
        let ghost done = buffers_view(parts@).take(i as int);
        let ghost next = buffers_view(parts@).take(i + 1);
        assert(next.drop_last() == done);
        assert(next.last() == parts@[i as int]@);
        if i > 0 {
            append_chars(&mut out, sep);
        }
        append_chars(&mut out, &parts[i]);
        assert(out@ == join(next, sep@)) by {
            if i == 0 {
                assert(done.len() == 0);
                assert(out@ == parts@[0]@);
            }
        }
        i += 1;
    }
    assert(buffers_view(parts@).take(parts.len() as int) == buffers_view(parts@));
    out
}

/// The strings that the buffers spell, in order.
pub fn strings_of(parts: &Vec<Vec<char>>) -> (r: Vec<String>)
    ensures
        strings_view(r@) == buffers_view(parts@),
{
    let mut out: Vec<String> = Vec::new();
    let mut i: usize = 0;
    while i < parts.len()
        invariant
            i <= parts.len(),
            strings_view(out@) == buffers_view(parts@).take(i as int),
        decreases parts.len() - i,
    {
        let ghost before = strings_view(out@);
        out.push(string_of(&parts[i]));
        assert(strings_view(out@) == before.push(parts@[i as int]@));
        assert(buffers_view(parts@).take(i + 1) == before.push(parts@[i as int]@));
        i += 1;
    }
    assert(buffers_view(parts@).take(parts.len() as int) == buffers_view(parts@));
    out
}

/// `a` followed by `b`.
pub fn chain(a: &str, b: &str) -> (r: String)
    ensures
        r@ == a@ + b@,
{
    let mut out = chars_of(a);
    append_str(&mut out, b);
    string_of(&out)
}

} // verus!
