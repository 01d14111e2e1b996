//! Character-level text helpers. A string is seen through its view, the
//! `Seq<char>` of its characters; the spec functions here say what trimming,
//! splitting and line breaking produce, and the executable functions are
//! proved to compute exactly that.
use vstd::prelude::*;

verus! {

/// The characters with the Unicode `White_Space` property, which is what
/// `char::is_whitespace` (and so `str::trim`) tests.
pub open spec fn is_unicode_whitespace(c: char) -> bool {
    let u = c as u32;
    ||| (0x09 <= u && u <= 0x0d)
    ||| u == 0x20
    ||| u == 0x85
    ||| u == 0xa0
    ||| u == 0x1680
    ||| (0x2000 <= u && u <= 0x200a)
    ||| u == 0x2028
    ||| u == 0x2029
    ||| u == 0x202f
    ||| u == 0x205f
    ||| u == 0x3000
}

/// A set of characters that trimming removes from the ends of a string.
#[derive(Clone, Copy, Debug, PartialEq, Eq)]
pub enum CharClass {
    /// Unicode white space (`str::trim`).
    Whitespace,
    /// One given character (`str::trim_matches(c)`).
    Exactly(char),
}

impl CharClass {
    pub open spec fn holds(self, c: char) -> bool {
        match self {
            CharClass::Whitespace => is_unicode_whitespace(c),
            CharClass::Exactly(x) => c == x,
        }
    }

    /// Whether `c` belongs to the class.
    pub fn contains(&self, c: char) -> (r: bool)
        ensures
            r == self.holds(c),
    {
        match self {
            CharClass::Whitespace => {
                let u = c as u32;
                (0x09 <= u && u <= 0x0d) || u == 0x20 || u == 0x85 || u == 0xa0 || u == 0x1680
                    || (0x2000 <= u && u <= 0x200a) || u == 0x2028 || u == 0x2029 || u == 0x202f
                    || u == 0x205f || u == 0x3000
            },
            CharClass::Exactly(x) => c == *x,
        }
    }
}

/// `s` without the characters of class `k` at its front.
pub open spec fn trim_front(s: Seq<char>, k: CharClass) -> Seq<char>
    decreases s.len(),
{
    if s.len() > 0 && k.holds(s[0]) {
        trim_front(s.drop_first(), k)
    } else {
        s
    }
}

/// `s` without the characters of class `k` at its back.
pub open spec fn trim_back(s: Seq<char>, k: CharClass) -> Seq<char>
    decreases s.len(),
{
    if s.len() > 0 && k.holds(s.last()) {
        trim_back(s.drop_last(), k)
    } else {
        s
    }
}

/// `s` without the characters of class `k` at either end.
pub open spec fn trim_class(s: Seq<char>, k: CharClass) -> Seq<char> {
    trim_back(trim_front(s, k), k)
}

/// `s` without white space at either end (`str::trim`).
pub open spec fn trim(s: Seq<char>) -> Seq<char> {
    trim_class(s, CharClass::Whitespace)
}

/// The pieces of `s` between occurrences of `sep`, in order (`str::split`
/// with a one-character pattern): `n` separators give `n + 1` pieces.
pub open spec fn split(s: Seq<char>, sep: char) -> Seq<Seq<char>>
    decreases s.len(),
{
    if s.len() == 0 {
        seq![Seq::<char>::empty()]
    } else {
        let p = split(s.drop_last(), sep);
        if s.last() == sep {
            p.push(Seq::<char>::empty())
        } else {
            p.update(p.len() - 1, p.last().push(s.last()))
        }
    }
}

/// The part of `s` before the first `c`, or all of `s` where there is none.
pub open spec fn before_first(s: Seq<char>, c: char) -> Seq<char>
    decreases s.len(),
{
    if s.len() == 0 {
        s
    } else if s[0] == c {
        Seq::<char>::empty()
    } else {
        seq![s[0]] + before_first(s.drop_first(), c)
    }
}

/// A line that was ended by a `'\n'` loses one `'\r'` before it.
pub open spec fn strip_cr(s: Seq<char>) -> Seq<char> {
    if s.len() > 0 && s.last() == '\r' {
        s.drop_last()
    } else {
        s
    }
}

/// The lines of `s` as `str::lines` yields them: split at `'\n'`, a `"\r\n"`
/// ending counts as one line ending, and a final line ending adds no empty
/// line.
pub open spec fn lines(s: Seq<char>) -> Seq<Seq<char>> {
    let parts = split(s, '\n');
    let n = parts.len();
    let k: int = if parts.last().len() == 0 { n - 1 } else { n as int };
    Seq::new(k as nat, |i: int| if i < n - 1 { strip_cr(parts[i]) } else { parts[i] })
}

/// The views of a sequence of character vectors.
pub open spec fn views(v: Seq<Vec<char>>) -> Seq<Seq<char>> {
    v.map_values(|x: Vec<char>| x@)
}

/// The views of a sequence of strings.
pub open spec fn string_views(v: Seq<String>) -> Seq<Seq<char>> {
    v.map_values(|x: String| x@)
}

/// ASCII upper-case letters become lower-case; every other character stays.
pub open spec fn ascii_lower(c: char) -> char {
    if 'A' <= c && c <= 'Z' {
        ((c as u32) + 32) as char
    } else {
        c
    }
}

/// `s` with every ASCII upper-case letter made lower-case.
pub open spec fn lower(s: Seq<char>) -> Seq<char> {
    s.map_values(|c: char| ascii_lower(c))
}

proof fn lemma_trim_front_at(s: Seq<char>, k: CharClass, i: int)
    requires
        0 <= i <= s.len(),
        forall|j: int| 0 <= j < i ==> k.holds(#[trigger] s[j]),
        i == s.len() || !k.holds(s[i]),
    ensures
        trim_front(s, k) == s.skip(i),
    decreases i,
{
    if i == 0 {
        assert(s.skip(0) == s);
    } else {
        let t = s.drop_first();
        assert forall|j: int| 0 <= j < i - 1 implies k.holds(#[trigger] t[j]) by {
            assert(t[j] == s[j + 1]);
        }
        lemma_trim_front_at(t, k, i - 1);
        assert(t.skip(i - 1) == s.skip(i));
    }
}

proof fn lemma_trim_back_at(s: Seq<char>, k: CharClass, e: int)
    requires
        0 <= e <= s.len(),
        forall|j: int| e <= j < s.len() ==> k.holds(#[trigger] s[j]),
        e == 0 || !k.holds(s[e - 1]),
    ensures
        trim_back(s, k) == s.take(e),
    decreases s.len() - e,
{
    if e == s.len() {
        assert(s.take(e) == s);
    } else {
        let t = s.drop_last();
        assert forall|j: int| e <= j < t.len() implies k.holds(#[trigger] t[j]) by {
            assert(t[j] == s[j]);
        }
        lemma_trim_back_at(t, k, e);
        assert(t.take(e) == s.take(e));
    }
}

/// Trimming twice trims no more than trimming once.
pub proof fn lemma_trim_idempotent(s: Seq<char>, k: CharClass)
    ensures
        trim_class(trim_class(s, k), k) == trim_class(s, k),
{
    let t = trim_class(s, k);
    lemma_trim_shape(s, k);
    lemma_trim_shape(t, k);
    if t.len() > 0 {
        lemma_trim_front_at(t, k, 0);
        lemma_trim_back_at(t, k, t.len() as int);
        assert(t.take(t.len() as int) == t);
    }
}

/// What trimming leaves starts and ends outside the class.
pub proof fn lemma_trim_shape(s: Seq<char>, k: CharClass)
    ensures
        trim_class(s, k).len() > 0 ==> !k.holds(trim_class(s, k)[0]) && !k.holds(
            trim_class(s, k).last(),
        ),
    decreases s.len(),
{
    lemma_trim_front_shape(s, k);
    lemma_trim_back_shape(trim_front(s, k), k);
}

proof fn lemma_trim_front_shape(s: Seq<char>, k: CharClass)
    ensures
        trim_front(s, k).len() > 0 ==> !k.holds(trim_front(s, k)[0]),
    decreases s.len(),
{
    if s.len() > 0 && k.holds(s[0]) {
        lemma_trim_front_shape(s.drop_first(), k);
    }
}

proof fn lemma_trim_back_shape(s: Seq<char>, k: CharClass)
    requires
        s.len() > 0 ==> !k.holds(s[0]),
    ensures
        trim_back(s, k).len() > 0 ==> !k.holds(trim_back(s, k).last()) && !k.holds(
            trim_back(s, k)[0],
        ),
    decreases s.len(),
{
    if s.len() > 0 && k.holds(s.last()) {
        let t = s.drop_last();
        if t.len() > 0 {
            assert(t[0] == s[0]);
        }
        lemma_trim_back_shape(t, k);
    }
}

/// `s` holds no `c`.
pub open spec fn lacks(s: Seq<char>, c: char) -> bool {
    forall|i: int| 0 <= i < s.len() ==> s[i] != c
}

/// Trimming keeps out what was not there.
pub proof fn lemma_trim_lacks(s: Seq<char>, k: CharClass, c: char)
    requires
        lacks(s, c),
    ensures
        lacks(trim_class(s, k), c),
{
    lemma_trim_front_lacks(s, k, c);
    lemma_trim_back_lacks(trim_front(s, k), k, c);
}

proof fn lemma_trim_front_lacks(s: Seq<char>, k: CharClass, c: char)
    requires
        lacks(s, c),
    ensures
        lacks(trim_front(s, k), c),
    decreases s.len(),
{
    if s.len() > 0 && k.holds(s[0]) {
        let t = s.drop_first();
        assert forall|i: int| 0 <= i < t.len() implies t[i] != c by {
            assert(t[i] == s[i + 1]);
        }
        lemma_trim_front_lacks(t, k, c);
    }
}

proof fn lemma_trim_back_lacks(s: Seq<char>, k: CharClass, c: char)
    requires
        lacks(s, c),
    ensures
        lacks(trim_back(s, k), c),
    decreases s.len(),
{
    if s.len() > 0 && k.holds(s.last()) {
        let t = s.drop_last();
        assert forall|i: int| 0 <= i < t.len() implies t[i] != c by {
            assert(t[i] == s[i]);
        }
        lemma_trim_back_lacks(t, k, c);
    }
}

/// No piece of a split holds the separator, nor a character the whole
/// lacks.
pub proof fn lemma_split_pieces_lack(s: Seq<char>, sep: char, c: char)
    requires
        lacks(s, c),
    ensures
        forall|j: int|
            0 <= j < split(s, sep).len() ==> lacks(#[trigger] split(s, sep)[j], sep) && lacks(
                split(s, sep)[j],
                c,
            ),
    decreases s.len(),
{
    if s.len() > 0 {
        let t = s.drop_last();
        assert forall|i: int| 0 <= i < t.len() implies t[i] != c by {
            assert(t[i] == s[i]);
        }
        lemma_split_pieces_lack(t, sep, c);
        lemma_split_nonempty(t, sep);
        let p = split(t, sep);
        assert(s.last() == s[s.len() - 1]);
        if s.last() != sep {
            let q = p.last().push(s.last());
            assert(lacks(p[p.len() - 1], sep) && lacks(p[p.len() - 1], c));
            assert(lacks(q, sep) && lacks(q, c)) by {
                assert forall|i: int| 0 <= i < q.len() implies q[i] != sep && q[i] != c by {
                    if i < q.len() - 1 {
                        assert(q[i] == p.last()[i]);
                    }
                }
            }
        }
    }
}

/// What is before the first `c` holds no `c`.
pub proof fn lemma_before_first_lacks(s: Seq<char>, c: char)
    ensures
        lacks(before_first(s, c), c),
    decreases s.len(),
{
    if s.len() > 0 && s[0] != c {
        lemma_before_first_lacks(s.drop_first(), c);
        let r = seq![s[0]] + before_first(s.drop_first(), c);
        assert forall|i: int| 0 <= i < r.len() implies r[i] != c by {
            if i > 0 {
                assert(r[i] == before_first(s.drop_first(), c)[i - 1]);
            }
        }
    }
}

/// The first piece of a split starts with the first character, unless that
/// is the separator.
pub proof fn lemma_split_first_piece(s: Seq<char>, sep: char)
    requires
        s.len() > 0,
        s[0] != sep,
    ensures
        split(s, sep)[0].len() > 0,
        split(s, sep)[0][0] == s[0],
    decreases s.len(),
{
    let t = s.drop_last();
    lemma_split_nonempty(t, sep);
    if s.len() == 1 {
        assert(t.len() == 0);
        assert(split(t, sep) == seq![Seq::<char>::empty()]);
        assert(s.last() == s[0]);
    } else {
        assert(t[0] == s[0]);
        lemma_split_first_piece(t, sep);
        let p = split(t, sep);
        if s.last() != sep && p.len() == 1 {
            assert(p.last() == p[0]);
            assert(split(s, sep)[0] == p[0].push(s.last()));
        }
    }
}

proof fn lemma_trim_back_first(s: Seq<char>, k: CharClass)
    requires
        s.len() > 0,
        !k.holds(s[0]),
    ensures
        trim_back(s, k).len() > 0,
        trim_back(s, k)[0] == s[0],
    decreases s.len(),
{
    if k.holds(s.last()) {
        assert(s.len() > 1) by {
            if s.len() == 1 {
                assert(s.last() == s[0]);
            }
        }
        let t = s.drop_last();
        assert(t[0] == s[0]);
        lemma_trim_back_first(t, k);
    }
}

/// A text that starts outside white space keeps its first character when it
/// is trimmed.
pub proof fn lemma_trim_keeps_first(t: Seq<char>)
    requires
        t.len() > 0,
        !is_unicode_whitespace(t[0]),
    ensures
        trim(t).len() > 0,
        trim(t)[0] == t[0],
{
    lemma_trim_front_at(t, CharClass::Whitespace, 0);
    assert(t.skip(0) == t);
    lemma_trim_back_first(t, CharClass::Whitespace);
}

/// The characters of `s` with those of class `k` taken off both ends.
pub fn trim_chars(s: &Vec<char>, k: CharClass) -> (r: Vec<char>)
    ensures
        r@ == trim_class(s@, k),
{
    let n = s.len();
    let mut i: usize = 0;
    while i < n && k.contains(s[i])
        invariant
            n == s.len(),
            i <= n,
            forall|j: int| 0 <= j < i ==> k.holds(#[trigger] s@[j]),
        decreases n - i,
    {
        i = i + 1;
    }
    proof {
        lemma_trim_front_at(s@, k, i as int);
    }
    let ghost front = s@.skip(i as int);
    let mut e: usize = n;
    while e > i && k.contains(s[e - 1])
        invariant
            n == s.len(),
            i <= e <= n,
            forall|j: int| e <= j < n ==> k.holds(#[trigger] s@[j]),
        decreases e,
    {
        e = e - 1;
    }
    proof {
        assert forall|j: int| (e - i) <= j < front.len() implies k.holds(#[trigger] front[j]) by {
            assert(front[j] == s@[j + i]);
        }
        if e > i {
            assert(front[e - i - 1] == s@[e - 1]);
        }
        lemma_trim_back_at(front, k, e - i);
    }
    let mut r: Vec<char> = Vec::new();
    let mut j: usize = i;
    while j < e
        invariant
            n == s.len(),
            i <= j <= e <= n,
            r@ == s@.subrange(i as int, j as int),
        decreases e - j,
    {
        r.push(s[j]);
        j = j + 1;
        assert(r@ == s@.subrange(i as int, j as int));
    }
    assert(front.take(e - i) == s@.subrange(i as int, e as int));
    r
}

proof fn lemma_split_nonempty(s: Seq<char>, sep: char)
    ensures
        split(s, sep).len() >= 1,
    decreases s.len(),
{
    if s.len() > 0 {
        lemma_split_nonempty(s.drop_last(), sep);
    }
}

/// The pieces of `s` between occurrences of `sep`.
pub fn split_chars(s: &Vec<char>, sep: char) -> (r: Vec<Vec<char>>)
    ensures
        views(r@) == split(s@, sep),
        r.len() >= 1,
{
    let mut parts: Vec<Vec<char>> = Vec::new();
    let mut cur: Vec<char> = Vec::new();
    let mut i: usize = 0;
    while i < s.len()
        invariant
            i <= s.len(),
            views(parts@).push(cur@) == split(s@.take(i as int), sep),
        decreases s.len() - i,
    {
        let c = s[i];
        proof {
            let t = s@.take(i as int + 1);
            assert(t.drop_last() == s@.take(i as int));
            assert(t.last() == c);
            lemma_split_nonempty(t.drop_last(), sep);
        }
        if c == sep {
            let done = cur;
            parts.push(done);
            cur = Vec::new();
            assert(views(parts@) == views(parts@.drop_last()).push(done@));
        } else {
            let ghost before = cur@;
            cur.push(c);
            proof {
                let p = split(s@.take(i as int), sep);
                assert(views(parts@).push(cur@) == p.update(p.len() - 1, before.push(c)));
            }
        }
        i = i + 1;
    }
    assert(s@.take(s.len() as int) == s@);
    let last = cur;
    parts.push(last);
    assert(views(parts@) == views(parts@.drop_last()).push(last@));
    parts
}

proof fn lemma_before_first_at(s: Seq<char>, c: char, i: int)
    requires
        0 <= i <= s.len(),
        forall|j: int| 0 <= j < i ==> #[trigger] s[j] != c,
        i == s.len() || s[i] == c,
    ensures
        before_first(s, c) == s.take(i),
    decreases i,
{
    if i == 0 {
        if s.len() == 0 {
            assert(s.take(0) == s);
        } else {
            assert(s.take(0) == Seq::<char>::empty());
        }
    } else {
        let t = s.drop_first();
        assert forall|j: int| 0 <= j < i - 1 implies #[trigger] t[j] != c by {
            assert(t[j] == s[j + 1]);
        }
        lemma_before_first_at(t, c, i - 1);
        assert(s.take(i) == seq![s[0]] + t.take(i - 1));
    }
}

/// The characters of `s` before the first `c`.
pub fn before_first_chars(s: &Vec<char>, c: char) -> (r: Vec<char>)
    ensures
        r@ == before_first(s@, c),
{
    let mut r: Vec<char> = Vec::new();
    let mut i: usize = 0;
    while i < s.len() && s[i] != c
        invariant
            i <= s.len(),
            r@ == s@.take(i as int),
            forall|j: int| 0 <= j < i ==> #[trigger] s@[j] != c,
        decreases s.len() - i,
    {
        r.push(s[i]);
        i = i + 1;
        assert(r@ == s@.take(i as int));
    }
    proof {
        lemma_before_first_at(s@, c, i as int);
    }
    r
}

/// Whether the two character sequences are equal.
pub fn same_chars(a: &Vec<char>, b: &Vec<char>) -> (r: bool)
    ensures
        r == (a@ == b@),
{
    if a.len() != b.len() {
        return false;
    }
    let mut i: usize = 0;
    while i < a.len()
        invariant
            a.len() == b.len(),
            i <= a.len(),
            forall|j: int| 0 <= j < i ==> a@[j] == b@[j],
        decreases a.len() - i,
    {
        if a[i] != b[i] {
            return false;
        }
        i = i + 1;
    }
    assert(a@ =~= b@);
    true
}

/// Whether the characters in `a` are those of the string `b`.
pub fn chars_eq_str(a: &Vec<char>, b: &str) -> (r: bool)
    ensures
        r == (a@ == b@),
{
    let bv = chars_of(b);
    same_chars(a, &bv)
}

/// `s` with every ASCII upper-case letter made lower-case.
pub fn lower_chars(s: &Vec<char>) -> (r: Vec<char>)
    ensures
        r@ == lower(s@),
{
    let mut r: Vec<char> = Vec::new();
    let mut i: usize = 0;
    while i < s.len()
        invariant
            i <= s.len(),
            r@ == lower(s@.take(i as int)),
        decreases s.len() - i,
    {
        let c = s[i];
        let l = if 'A' <= c && c <= 'Z' {
            let u = (c as u32) + 32;
            assert(0x61 <= u <= 0x7a);
            char_of_ascii(u)
        } else {
            c
        };
        r.push(l);
        i = i + 1;
        assert(r@ =~= lower(s@.take(i as int)));
    }
    assert(s@.take(s.len() as int) == s@);
    r
}

/// The character with the given ASCII code.
fn char_of_ascii(u: u32) -> (c: char)
    requires
        u < 0x80,
    ensures
        c == u as char,
{
    let b = u as u8;
    b as char
}

/// Appends the characters of `src` to `dst`.
pub fn push_all(dst: &mut Vec<char>, src: &Vec<char>)
    ensures
        final(dst)@ == old(dst)@ + src@,
{
    let ghost start = dst@;
    let mut i: usize = 0;
    while i < src.len()
        invariant
            i <= src.len(),
            dst@ == start + src@.take(i as int),
        decreases src.len() - i,
    {
        dst.push(src[i]);
        i = i + 1;
        assert(dst@ =~= start + src@.take(i as int));
    }
    assert(src@.take(src.len() as int) == src@);
}

/// `s` without one `'\r'` at its end.
pub fn strip_cr_chars(s: &Vec<char>) -> (r: Vec<char>)
    ensures
        r@ == strip_cr(s@),
{
    let n = s.len();
    let keep = if n > 0 && s[n - 1] == '\r' { n - 1 } else { n };
    let mut r: Vec<char> = Vec::new();
    let mut i: usize = 0;
    while i < keep
        invariant
            keep <= n == s.len(),
            i <= keep,
            r@ == s@.take(i as int),
        decreases keep - i,
    {
        r.push(s[i]);
        i = i + 1;
        assert(r@ =~= s@.take(i as int));
    }
    assert(s@.take(n as int) == s@);
    r
}

/// The characters of `s` from position `from` up to, not including, `to`.
pub fn slice_chars(s: &Vec<char>, from: usize, to: usize) -> (r: Vec<char>)
    requires
        from <= to <= s.len(),
    ensures
        r@ == s@.subrange(from as int, to as int),
{
    let mut r: Vec<char> = Vec::new();
    let mut i: usize = from;
    while i < to
        invariant
            from <= i <= to <= s.len(),
            r@ == s@.subrange(from as int, i as int),
        decreases to - i,
    {
        r.push(s[i]);
        i = i + 1;
        assert(r@ =~= s@.subrange(from as int, i as int));
    }
    r
}

/// The number of bytes that the UTF-8 encoding of `c` takes
/// (`char::len_utf8`).
pub open spec fn char_utf8_width(c: char) -> nat {
    if (c as u32) < 0x80 {
        1
    } else if (c as u32) < 0x800 {
        2
    } else if (c as u32) < 0x10000 {
        3
    } else {
        4
    }
}

/// The number of bytes that the UTF-8 encoding of `s` takes (`str::len`).
pub open spec fn utf8_len(s: Seq<char>) -> nat
    decreases s.len(),
{
    if s.len() == 0 {
        0
    } else {
        utf8_len(s.drop_last()) + char_utf8_width(s.last())
    }
}

proof fn lemma_utf8_len_grows(s: Seq<char>, i: int)
    requires
        0 <= i <= s.len(),
    ensures
        utf8_len(s.take(i)) <= utf8_len(s),
    decreases s.len() - i,
{
    if i < s.len() {
        assert(s.take(i + 1).drop_last() == s.take(i));
        lemma_utf8_len_grows(s, i + 1);
    } else {
        assert(s.take(i) == s);
    }
}

/// Whether the UTF-8 encoding of `s` takes exactly two bytes.
pub fn utf8_len_is_two(s: &Vec<char>) -> (r: bool)
    ensures
        r == (utf8_len(s@) == 2),
{
    let mut total: usize = 0;
    let mut i: usize = 0;
    while i < s.len()
        invariant
            i <= s.len(),
            total == utf8_len(s@.take(i as int)),
            total <= 2,
        decreases s.len() - i,
    {
        let u = s[i] as u32;
        let w: usize = if u < 0x80 {
            1
        } else if u < 0x800 {
            2
        } else if u < 0x10000 {
            3
        } else {
            4
        };
        assert(s@.take(i + 1).drop_last() == s@.take(i as int));
        total = total + w;
        i = i + 1;
        if total > 2 {
            proof {
                lemma_utf8_len_grows(s@, i as int);
            }
            return false;
        }
    }
    assert(s@.take(s.len() as int) == s@);
    total == 2
}

/// Copies the characters of `s` into a vector.
pub fn chars_of(s: &str) -> (v: Vec<char>)
    ensures
        v@ == s@,
{
    let mut v: Vec<char> = Vec::new();
    for c in it: s.chars()
        invariant
            v@ == it.seq().take(it.index()),
            it.seq() == s@,
    {
        v.push(c);
    }
    v
}

/// Appends one character to a string (`String::push`).
#[verifier::external_body]
pub(crate) fn push_char(s: &mut String, c: char)
    ensures
        final(s)@ == old(s)@.push(c),
{
    s.push(c);
}

/// A fresh string holding exactly the characters of `v`.
pub fn string_of(v: &Vec<char>) -> (s: String)
    ensures
        s@ == v@,
{
    let mut s = String::new();
    let mut i: usize = 0;
    while i < v.len()
        invariant
            i <= v.len(),
            s@ == v@.take(i as int),
        decreases v.len() - i,
    {
        push_char(&mut s, v[i]);
        i = i + 1;
        assert(v@.take(i as int) == v@.take((i - 1) as int).push(v@[i - 1]));
    }
    assert(v@.take(v.len() as int) == v@);
    s
}

} // verus!
