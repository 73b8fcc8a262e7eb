//! Character-level text operations, each with its mathematical definition over `Seq<char>`.
use vstd::prelude::*;

verus! {

/// Whether `c` carries the Unicode `White_Space` property.
pub open spec fn is_space(c: char) -> bool {
    let n = c as u32;
    ||| 0x09 <= n <= 0x0D
    ||| n == 0x20
    ||| n == 0x85
    ||| n == 0xA0
    ||| n == 0x1680
    ||| 0x2000 <= n <= 0x200A
    ||| n == 0x2028
    ||| n == 0x2029
    ||| n == 0x202F
    ||| n == 0x205F
    ||| n == 0x3000
}

/// Whether every character of `s` is white space (true of the empty text).
pub open spec fn is_blank(s: Seq<char>) -> bool {
    forall|i: int| 0 <= i < s.len() ==> is_space(#[trigger] s[i])
}

/// `s` without its leading white space.
pub open spec fn trim_start(s: Seq<char>) -> Seq<char>
    decreases s.len(),
{
    if s.len() > 0 && is_space(s[0]) {
        trim_start(s.drop_first())
    } else {
        s
    }
}

/// `s` without its trailing white space.
pub open spec fn trim_end(s: Seq<char>) -> Seq<char>
    decreases s.len(),
{
    if s.len() > 0 && is_space(s.last()) {
        trim_end(s.drop_last())
    } else {
        s
    }
}

/// `s` without leading and trailing white space.
pub open spec fn trimmed(s: Seq<char>) -> Seq<char> {
    trim_end(trim_start(s))
}

/// The views of a sequence of strings.
pub open spec fn views(parts: Seq<String>) -> Seq<Seq<char>> {
    Seq::new(parts.len(), |i: int| parts[i]@)
}

/// `needle` occurs in `hay` starting at position `i`.
pub open spec fn occurs_at(hay: Seq<char>, needle: Seq<char>, i: int) -> bool {
    &&& 0 <= i
    &&& i + needle.len() <= hay.len()
    &&& hay.subrange(i, i + needle.len()) == needle
}

/// `needle` occurs somewhere in `hay`; the empty text occurs in every text.
pub open spec fn contains(hay: Seq<char>, needle: Seq<char>) -> bool {
    exists|i: int| occurs_at(hay, needle, i)
}

/// The code of `c`, with the upper-case ASCII letters mapped onto the lower-case ones.
pub open spec fn ascii_fold(c: char) -> int {
    if 'A' <= c <= 'Z' {
        c as int + 32
    } else {
        c as int
    }
}

/// `s` begins with `prefix`, ASCII letters compared without regard to case.
pub open spec fn has_prefix_ignoring_ascii_case(s: Seq<char>, prefix: Seq<char>) -> bool {
    &&& prefix.len() <= s.len()
    &&& forall|j: int| 0 <= j < prefix.len() ==> ascii_fold(#[trigger] s[j]) == ascii_fold(prefix[j])
}

/// The parts in order, with `sep` between each two neighbours.
pub open spec fn joined(parts: Seq<Seq<char>>, sep: Seq<char>) -> Seq<char>
    decreases parts.len(),
{
    if parts.len() == 0 {
        Seq::empty()
    } else if parts.len() == 1 {
        parts[0]
    } else {
        joined(parts.drop_last(), sep) + sep + parts.last()
    }
}

/// The parts in order, with nothing between them.
pub open spec fn concatenated(parts: Seq<Seq<char>>) -> Seq<char>
    decreases parts.len(),
{
    if parts.len() == 0 {
        Seq::empty()
    } else {
        concatenated(parts.drop_last()) + parts.last()
    }
}

/// `n` copies of `unit`, one after another.
pub open spec fn repeated(unit: Seq<char>, n: nat) -> Seq<char>
    decreases n,
{
    if n == 0 {
        Seq::empty()
    } else {
        repeated(unit, (n - 1) as nat) + unit
    }
}

/// `s` followed by as many spaces as it lacks to reach `width` characters.
pub open spec fn padded(s: Seq<char>, width: nat) -> Seq<char> {
    if s.len() >= width {
        s
    } else {
        s + repeated(seq![' '], (width - s.len()) as nat)
    }
}

/// The number of characters before the first line feed of `s`, or the length of `s` if it
/// has none.
pub open spec fn line_end(s: Seq<char>) -> nat
    decreases s.len(),
{
    if s.len() == 0 || s[0] == '\n' {
        0
    } else {
        1 + line_end(s.drop_first())
    }
}

/// `line` without one trailing carriage return.
pub open spec fn without_carriage_return(line: Seq<char>) -> Seq<char> {
    if line.len() > 0 && line.last() == '\r' {
        line.drop_last()
    } else {
        line
    }
}

/// The lines of `s`: the pieces between line feeds, each without the carriage return that
/// preceded its line feed. A final line feed ends the last line and starts no further one.
pub open spec fn split_lines(s: Seq<char>) -> Seq<Seq<char>>
    decreases s.len(),
{
    if s.len() == 0 {
        Seq::empty()
    } else {
        let k = line_end(s);
        if k >= s.len() {
            seq![s]
        } else {
            seq![without_carriage_return(s.take(k as int))] + split_lines(s.skip(k as int + 1))
        }
    }
}

/// The decimal digit for `d`.
pub open spec fn digit(d: nat) -> char {
    if d == 0 {
        '0'
    } else if d == 1 {
        '1'
    } else if d == 2 {
        '2'
    } else if d == 3 {
        '3'
    } else if d == 4 {
        '4'
    } else if d == 5 {
        '5'
    } else if d == 6 {
        '6'
    } else if d == 7 {
        '7'
    } else if d == 8 {
        '8'
    } else {
        '9'
    }
}

/// The decimal digits of `n`, most significant first, without leading zeros.
pub open spec fn decimal(n: nat) -> Seq<char>
    decreases n,
{
    if n < 10 {
        seq![digit(n)]
    } else {
        decimal(n / 10).push(digit(n % 10))
    }
}

/// `n` in decimal, filled with zeros to at least three characters; a minus sign counts as
/// one of the three and stands before the zeros.
pub open spec fn three_digits(n: int) -> Seq<char> {
    if n >= 0 {
        let d = decimal(n as nat);
        repeated(seq!['0'], if d.len() < 3 { (3 - d.len()) as nat } else { 0 }) + d
    } else {
        let d = decimal((-n) as nat);
        seq!['-'] + repeated(seq!['0'], if d.len() < 2 { (2 - d.len()) as nat } else { 0 }) + d
    }
}

/// If the first `a` characters of `s` are white space and the next one is not, trimming the
/// start leaves what follows them.
pub proof fn lemma_trim_start_at(s: Seq<char>, a: int)
    requires
        0 <= a <= s.len(),
        forall|j: int| 0 <= j < a ==> is_space(#[trigger] s[j]),
        a == s.len() || !is_space(s[a]),
    ensures
        trim_start(s) == s.subrange(a, s.len() as int),
    decreases a,
{
    if a == 0 {
        assert(s.subrange(0, s.len() as int) =~= s);
    } else {
        let t = s.drop_first();
        assert(is_space(s[0]));
        assert forall|j: int| 0 <= j < a - 1 implies is_space(#[trigger] t[j]) by {
            assert(t[j] == s[j + 1]);
        }
        lemma_trim_start_at(t, a - 1);
        assert(t.subrange(a - 1, t.len() as int) =~= s.subrange(a, s.len() as int));
    }
}

/// If the characters of `s` from `b` on are white space and the one before is not, trimming
/// the end leaves what stands before them.
pub proof fn lemma_trim_end_at(s: Seq<char>, b: int)
    requires
        0 <= b <= s.len(),
        forall|j: int| b <= j < s.len() ==> is_space(#[trigger] s[j]),
        b == 0 || !is_space(s[b - 1]),
    ensures
        trim_end(s) == s.subrange(0, b),
    decreases s.len() - b,
{
    if b == s.len() {
        assert(s.subrange(0, b) =~= s);
    } else {
        let t = s.drop_last();
        assert(is_space(s[s.len() - 1]));
        assert forall|j: int| b <= j < t.len() implies is_space(#[trigger] t[j]) by {
            assert(t[j] == s[j]);
        }
        lemma_trim_end_at(t, b);
        assert(t.subrange(0, b) =~= s.subrange(0, b));
    }
}

/// Trimming leaves either nothing or a text that ends in a character that is no white space.
pub proof fn lemma_trim_end_last(s: Seq<char>)
    ensures
        trim_end(s).len() == 0 || !is_space(trim_end(s).last()),
        trim_end(s).len() <= s.len(),
    decreases s.len(),
{
    if s.len() > 0 && is_space(s.last()) {
        lemma_trim_end_last(s.drop_last());
    }
}

/// A text that is not blank keeps at least one character when trimmed, and a trimmed text
/// that is not empty is not blank.
pub proof fn lemma_trimmed_blank(s: Seq<char>)
    ensures
        trimmed(s).len() == 0 <==> is_blank(s),
        trimmed(s).len() > 0 ==> !is_blank(trimmed(s)),
{
    lemma_trim_end_last(trim_start(s));
    lemma_trim_start_blank(s);
    lemma_trim_end_blank(trim_start(s));
    if trimmed(s).len() > 0 {
        assert(!is_space(trimmed(s)[trimmed(s).len() - 1]));
    }
}

/// Trimming the start keeps a text blank or not blank, and leaves nothing of a blank text.
pub proof fn lemma_trim_start_blank(s: Seq<char>)
    ensures
        is_blank(trim_start(s)) <==> is_blank(s),
        is_blank(s) ==> trim_start(s).len() == 0,
    decreases s.len(),
{
    if s.len() > 0 && is_space(s[0]) {
        let t = s.drop_first();
        lemma_trim_start_blank(t);
        if is_blank(t) {
            assert forall|i: int| 0 <= i < s.len() implies is_space(#[trigger] s[i]) by {
                if i > 0 {
                    assert(s[i] == t[i - 1]);
                }
            }
        }
        if is_blank(s) {
            assert forall|i: int| 0 <= i < t.len() implies is_space(#[trigger] t[i]) by {
                assert(t[i] == s[i + 1]);
            }
        }
    } else if s.len() > 0 {
        assert(!is_space(s[0]));
    }
}

/// Trimming the end leaves nothing exactly of the blank texts.
pub proof fn lemma_trim_end_blank(s: Seq<char>)
    ensures
        trim_end(s).len() == 0 <==> is_blank(s),
    decreases s.len(),
{
    if s.len() > 0 && is_space(s.last()) {
        let t = s.drop_last();
        lemma_trim_end_blank(t);
        if is_blank(t) {
            assert forall|i: int| 0 <= i < s.len() implies is_space(#[trigger] s[i]) by {
                if i < s.len() - 1 {
                    assert(s[i] == t[i]);
                }
            }
        }
        if is_blank(s) {
            assert forall|i: int| 0 <= i < t.len() implies is_space(#[trigger] t[i]) by {
                assert(t[i] == s[i]);
            }
        }
    } else if s.len() > 0 {
        assert(!is_space(s[s.len() - 1]));
    }
}

/// If `s` has no line feed before position `m` and has one there, or ends there, its first
/// line ends at `m`.
pub proof fn lemma_line_end_at(s: Seq<char>, m: int)
    requires
        0 <= m <= s.len(),
        forall|j: int| 0 <= j < m ==> #[trigger] s[j] != '\n',
        m == s.len() || s[m] == '\n',
    ensures
        line_end(s) == m,
    decreases m,
{
    if m > 0 {
        let t = s.drop_first();
        assert(s[0] != '\n');
        assert forall|j: int| 0 <= j < m - 1 implies #[trigger] t[j] != '\n' by {
            assert(t[j] == s[j + 1]);
        }
        lemma_line_end_at(t, m - 1);
    }
}

/// The views of a sequence with one more string are the views with one more view.
pub proof fn lemma_views_push(parts: Seq<String>, last: String)
    ensures
        views(parts.push(last)) == views(parts).push(last@),
{
    assert(views(parts.push(last)) =~= views(parts).push(last@));
}

/// Tests a character for the `White_Space` property.
pub fn is_whitespace(c: char) -> (b: bool)
    ensures
        b == is_space(c),
{
    let n: u32 = c as u32;
    (0x09 <= n && n <= 0x0D) || n == 0x20 || n == 0x85 || n == 0xA0 || n == 0x1680 || (0x2000 <= n
        && n <= 0x200A) || n == 0x2028 || n == 0x2029 || n == 0x202F || n == 0x205F || n == 0x3000
}

/// The characters of a string slice, in order.
pub fn chars_of(s: &str) -> (v: Vec<char>)
    ensures
        v@ == s@,
{
    let mut v: Vec<char> = Vec::new();
    for c in it: s.chars()
        invariant
            it.seq() == s@,
            v@ == it.seq().take(it.index() as int),
    {
        v.push(c);
    }
    v
}

/// Removes leading and trailing white space.
pub fn trim(s: &str) -> (out: String)
    ensures
        out@ == trimmed(s@),
{
    let v = chars_of(s);
    let n: usize = v.len();
    let mut a: usize = 0;
    while a < n && is_whitespace(v[a])
        invariant
            a <= n,
            n == v.len(),
            forall|j: int| 0 <= j < a ==> is_space(#[trigger] v@[j]),
        decreases n - a,
    {
        a += 1;
    }
    let mut b: usize = n;
    while b > a && is_whitespace(v[b - 1])
        invariant
            a <= b <= n,
            n == v.len(),
            forall|j: int| b <= j < n ==> is_space(#[trigger] v@[j]),
        decreases b,
    {
        b -= 1;
    }
    proof {
        lemma_trim_start_at(v@, a as int);
        let t = v@.subrange(a as int, n as int);
        assert forall|j: int| b - a <= j < t.len() implies is_space(#[trigger] t[j]) by {
            assert(t[j] == v@[j + a]);
        }
        lemma_trim_end_at(t, b - a);
        assert(t.subrange(0, b - a) =~= v@.subrange(a as int, b as int));
    }
    s.substring_char(a, b).to_owned()
}

/// Whether `needle` stands in `hay` at character position `i`.
fn matches_at(hay: &Vec<char>, needle: &Vec<char>, i: usize) -> (b: bool)
    requires
        i + needle.len() <= hay.len(),
    ensures
        b == occurs_at(hay@, needle@, i as int),
{
    let m: usize = needle.len();
    let mut j: usize = 0;
    while j < m
        invariant
            j <= m,
            m == needle.len(),
            i + m <= hay.len(),
            forall|k: int| 0 <= k < j ==> hay@[i + k] == #[trigger] needle@[k],
        decreases m - j,
    {
        if hay[i + j] != needle[j] {
            proof {
                let sub = hay@.subrange(i as int, i + m);
                assert(sub[j as int] == hay@[i + j]);
            }
            return false;
        }
        j += 1;
    }
    assert(hay@.subrange(i as int, i + m) =~= needle@);
    true
}

/// Whether `needle` occurs in `hay`.
pub fn contains_text(hay: &str, needle: &str) -> (b: bool)
    ensures
        b == contains(hay@, needle@),
{
    let h = chars_of(hay);
    let n = chars_of(needle);
    if n.len() > h.len() {
        return false;
    }
    let last: usize = h.len() - n.len();
    let mut i: usize = 0;
    loop
        invariant
            i <= last,
            last == h.len() - n.len(),
            n.len() <= h.len(),
            h@ == hay@,
            n@ == needle@,
            forall|k: int| 0 <= k < i ==> !occurs_at(h@, n@, k),
        decreases last - i,
    {
        if matches_at(&h, &n, i) {
            assert(occurs_at(hay@, needle@, i as int));
            return true;
        }
        if i == last {
            return false;
        }
        i += 1;
    }
}

/// Whether two texts hold the same characters.
pub fn same_text(a: &str, b: &str) -> (same: bool)
    ensures
        same == (a@ == b@),
{
    let x = chars_of(a);
    let y = chars_of(b);
    if x.len() != y.len() {
        return false;
    }
    let n: usize = x.len();
    let mut i: usize = 0;
    while i < n
        invariant
            i <= n,
            n == x.len(),
            n == y.len(),
            x@ == a@,
            y@ == b@,
            forall|k: int| 0 <= k < i ==> x@[k] == y@[k],
        decreases n - i,
    {
        if x[i] != y[i] {
            return false;
        }
        i += 1;
    }
    assert(x@ =~= y@);
    true
}

/// The code of `c` with upper-case ASCII letters mapped onto lower-case ones.
fn fold_ascii(c: char) -> (n: u32)
    ensures
        n == ascii_fold(c),
{
    if 'A' <= c && c <= 'Z' {
        c as u32 + 32
    } else {
        c as u32
    }
}

/// Whether `s` begins with `prefix`, ASCII letters compared without regard to case.
pub fn starts_with_ignoring_ascii_case(s: &str, prefix: &str) -> (b: bool)
    ensures
        b == has_prefix_ignoring_ascii_case(s@, prefix@),
{
    let v = chars_of(s);
    let p = chars_of(prefix);
    if p.len() > v.len() {
        return false;
    }
    let m: usize = p.len();
    let mut j: usize = 0;
    while j < m
        invariant
            j <= m,
            m == p.len(),
            m <= v.len(),
            v@ == s@,
            p@ == prefix@,
            forall|k: int| 0 <= k < j ==> ascii_fold(#[trigger] v@[k]) == ascii_fold(p@[k]),
        decreases m - j,
    {
        if fold_ascii(v[j]) != fold_ascii(p[j]) {
            return false;
        }
        j += 1;
    }
    true
}

/// Joins the parts with `sep` between them.
pub fn join(parts: &Vec<String>, sep: &str) -> (out: String)
    ensures
        out@ == joined(views(parts@), sep@),
{
    let mut out = String::new();
    let n: usize = parts.len();
    let mut i: usize = 0;
    while i < n
        invariant
            i <= n,
            n == parts.len(),
            out@ == joined(views(parts@).take(i as int), sep@),
        decreases n - i,
    {
        proof {
            let next = views(parts@).take(i + 1);
            assert(next.drop_last() =~= views(parts@).take(i as int));
            assert(next.last() == parts@[i as int]@);
        }
        if i > 0 {
            out.append(sep);
        }
        out.append(parts[i].as_str());
        i += 1;
    }
    assert(views(parts@).take(n as int) =~= views(parts@));
    out
}

/// `n` copies of `unit`.
pub fn repeat(unit: &str, n: usize) -> (out: String)
    ensures
        out@ == repeated(unit@, n as nat),
{
    let mut out = String::new();
    let mut i: usize = 0;
    while i < n
        invariant
            i <= n,
            out@ == repeated(unit@, i as nat),
        decreases n - i,
    {
        out.append(unit);
        i += 1;
    }
    out
}

/// Fills `s` with spaces on the right up to `width` characters.
pub fn pad_right(s: &str, width: usize) -> (out: String)
    ensures
        out@ == padded(s@, width as nat),
{
    let len: usize = s.unicode_len();
    let mut out = s.to_owned();
    if len < width {
        proof {
            reveal_strlit(" ");
            assert(" "@ =~= seq![' ']);
        }
        let fill = repeat(" ", width - len);
        out.append(fill.as_str());
    }
    out
}

/// The position of the first line feed at or after `start`, or the length of `v`.
fn find_line_end(v: &Vec<char>, start: usize) -> (k: usize)
    requires
        start <= v.len(),
    ensures
        start <= k <= v.len(),
        k - start == line_end(v@.skip(start as int)),
{
    let n: usize = v.len();
    let mut k: usize = start;
    while k < n && v[k] != '\n'
        invariant
            start <= k <= n,
            n == v.len(),
            forall|j: int| start <= j < k ==> #[trigger] v@[j] != '\n',
        decreases n - k,
    {
        k += 1;
    }
    proof {
        let t = v@.skip(start as int);
        assert forall|j: int| 0 <= j < k - start implies #[trigger] t[j] != '\n' by {
            assert(t[j] == v@[j + start]);
        }
        lemma_line_end_at(t, k - start);
    }
    k
}

/// Splits a text into its lines.
pub fn lines(s: &str) -> (out: Vec<String>)
    ensures
        views(out@) == split_lines(s@),
{
    let v = chars_of(s);
    let n: usize = v.len();
    let mut out: Vec<String> = Vec::new();
    let mut start: usize = 0;
    proof {
        assert(v@.skip(0) =~= v@);
        assert(views(out@) + split_lines(v@) =~= split_lines(v@));
    }
    while start < n
        invariant
            start <= n,
            n == v.len(),
            v@ == s@,
            views(out@) + split_lines(v@.skip(start as int)) == split_lines(v@),
        decreases n - start,
    {
        let k = find_line_end(&v, start);
        let ghost rest = v@.skip(start as int);
        let ghost before = views(out@);
        if k >= n {
            let line = s.substring_char(start, n).to_owned();
            proof {
                assert(v@.subrange(start as int, n as int) =~= rest);
                lemma_views_push(out@, line);
                assert(split_lines(v@.skip(n as int)) =~= Seq::<Seq<char>>::empty());
                assert(before.push(rest) =~= before + seq![rest]);
            }
            out.push(line);
            start = n;
        } else {
            let end: usize = if k > start && v[k - 1] == '\r' {
                k - 1
            } else {
                k
            };
            let line = s.substring_char(start, end).to_owned();
            proof {
                let piece = rest.take(k - start);
                assert(piece =~= v@.subrange(start as int, k as int));
                assert(without_carriage_return(piece) =~= v@.subrange(start as int, end as int));
                assert(rest.skip(k - start + 1) =~= v@.skip(k + 1));
                lemma_views_push(out@, line);
                assert(before.push(line@) + split_lines(v@.skip(k + 1)) =~= before + (seq![line@]
                    + split_lines(v@.skip(k + 1))));
            }
            out.push(line);
            start = k + 1;
        }
    }
    assert(split_lines(v@.skip(n as int)) =~= Seq::<Seq<char>>::empty());
    assert(views(out@) + Seq::<Seq<char>>::empty() =~= views(out@));
    out
}

/// The number of lines of a text.
pub fn line_count(s: &str) -> (count: usize)
    ensures
        count == split_lines(s@).len(),
{
    let v = chars_of(s);
    let n: usize = v.len();
    let mut count: usize = 0;
    let mut start: usize = 0;
    proof {
        assert(v@.skip(0) =~= v@);
    }
    while start < n
        invariant
            start <= n,
            n == v.len(),
            v@ == s@,
            count <= start,
            count + split_lines(v@.skip(start as int)).len() == split_lines(v@).len(),
        decreases n - start,
    {
        let k = find_line_end(&v, start);
        let ghost rest = v@.skip(start as int);
        if k >= n {
            assert(split_lines(v@.skip(n as int)) =~= Seq::<Seq<char>>::empty());
            start = n;
        } else {
            assert(rest.skip(k - start + 1) =~= v@.skip(k + 1));
            start = k + 1;
        }
        count += 1;
    }
    assert(split_lines(v@.skip(n as int)) =~= Seq::<Seq<char>>::empty());
    count
}

/// The one-character text for a decimal digit.
pub fn digit_text(d: u8) -> (out: &'static str)
    requires
        d < 10,
    ensures
        out@ == seq![digit(d as nat)],
{
    proof {
        reveal_strlit("0");
        reveal_strlit("1");
        reveal_strlit("2");
        reveal_strlit("3");
        reveal_strlit("4");
        reveal_strlit("5");
        reveal_strlit("6");
        reveal_strlit("7");
        reveal_strlit("8");
        reveal_strlit("9");
    }
    let out = match d {
        0 => "0",
        1 => "1",
        2 => "2",
        3 => "3",
        4 => "4",
        5 => "5",
        6 => "6",
        7 => "7",
        8 => "8",
        _ => "9",
    };
    assert(out@ =~= seq![digit(d as nat)]);
    out
}

/// The decimal digits of `n`.
pub fn decimal_text(n: u64) -> (out: String)
    ensures
        out@ == decimal(n as nat),
    decreases n,
{
    if n < 10 {
        digit_text(n as u8).to_owned()
    } else {
        let mut out = decimal_text(n / 10);
        let last = digit_text((n % 10) as u8);
        out.append(last);
        assert(decimal((n / 10) as nat) + seq![digit((n % 10) as nat)] =~= decimal(
            (n / 10) as nat,
        ).push(digit((n % 10) as nat)));
        out
    }
}

/// `n` in decimal, zero-filled to three characters, the sign included.
pub fn three_digit_text(n: i32) -> (out: String)
    ensures
        out@ == three_digits(n as int),
{
    proof {
        reveal_strlit("0");
        reveal_strlit("-");
        assert("0"@ =~= seq!['0']);
        assert("-"@ =~= seq!['-']);
    }
    if n >= 0 {
        let digits = decimal_text(n as u64);
        let len: usize = digits.as_str().unicode_len();
        let mut out = repeat("0", if len < 3 { 3 - len } else { 0 });
        out.append(digits.as_str());
        out
    } else {
        let magnitude: u64 = (-(n as i64)) as u64;
        let digits = decimal_text(magnitude);
        let len: usize = digits.as_str().unicode_len();
        let fill = repeat("0", if len < 2 { 2 - len } else { 0 });
        let mut out = "-".to_owned();
        out.append(fill.as_str());
        out.append(digits.as_str());
        out
    }
}

} // verus!
