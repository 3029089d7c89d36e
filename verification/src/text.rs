//! Text as sequences of characters: searching, splitting and trimming.

use vstd::prelude::*;

verus! {

/// `String::push` appends one character at the end of the string.
pub assume_specification[ String::push ](s: &mut String, c: char)
    ensures
        final(s)@ == old(s)@.push(c),
;

/// The characters of each string.
pub open spec fn views(v: Seq<String>) -> Seq<Seq<char>> {
    Seq::new(v.len(), |i: int| v[i]@)
}

/// The Unicode characters with the White_Space property.
pub open spec fn white_space(c: char) -> bool {
    let n = c as int;
    ||| 0x9 <= n <= 0xD
    ||| n == 0x20
    ||| n == 0x85
    ||| n == 0xA0
    ||| n == 0x1680
    ||| 0x2000 <= n <= 0x200A
    ||| n == 0x2028
    ||| n == 0x2029
    ||| n == 0x202F
    ||| n == 0x205F
    ||| n == 0x3000
}

/// Whether `c` is Unicode white space.
pub fn is_white_space(c: char) -> (r: bool)
    ensures
        r == white_space(c),
{
    let n: u32 = c as u32;
    (0x9 <= n && n <= 0xD) || n == 0x20 || n == 0x85 || n == 0xA0 || n == 0x1680 || (0x2000 <= n
        && n <= 0x200A) || n == 0x2028 || n == 0x2029 || n == 0x202F || n == 0x205F || n == 0x3000
}

/// The characters of a string, in order.
pub fn chars_of(s: &str) -> (v: Vec<char>)
    ensures
        v@ == s@,
{
    let mut v: Vec<char> = Vec::new();
    for c in it: s.chars()
        invariant
            v@ == s@.take(it.index() as int),
            it.seq() == s@,
    {
        proof {
            assert(s@.take(it.index() + 1) =~= s@.take(it.index() as int).push(c));
        }
        v.push(c);
    }
    proof {
        assert(s@.take(s@.len() as int) =~= s@);
    }
    v
}

/// The string made of the characters from `from` up to `to`.
pub fn string_of(v: &Vec<char>, from: usize, to: usize) -> (s: String)
    requires
        from <= to <= v@.len(),
    ensures
        s@ == v@.subrange(from as int, to as int),
{
    let mut s = String::new();
    let mut i: usize = from;
    while i < to
        invariant
            from <= i <= to <= v@.len(),
            s@ == v@.subrange(from as int, i as int),
        decreases to - i,
    {
        s.push(v[i]);
        proof {
            assert(v@.subrange(from as int, i + 1) =~= v@.subrange(from as int, i as int).push(
                v@[i as int],
            ));
        }
        i += 1;
    }
    s
}

/// Whether two strings hold the same characters.
pub fn same(a: &str, b: &str) -> (r: bool)
    ensures
        r == (a@ == b@),
{
    let x = a.to_owned();
    let y = b.to_owned();
    x == y
}

// ---------------------------------------------------------------------------
// Searching
// ---------------------------------------------------------------------------

/// Whether `p` stands in `s` at position `i`.
pub open spec fn occurs_at(s: Seq<char>, p: Seq<char>, i: int) -> bool {
    0 <= i && i + p.len() <= s.len() && s.subrange(i, i + p.len()) == p
}

/// The first position of `p` in `s` that is not before `i`.
pub open spec fn find_from(s: Seq<char>, p: Seq<char>, i: int) -> Option<int>
    decreases s.len() + 1 - i,
{
    if i < 0 || i + p.len() > s.len() {
        None
    } else if occurs_at(s, p, i) {
        Some(i)
    } else {
        find_from(s, p, i + 1)
    }
}

/// Whether `p` is the start of `s`.
pub open spec fn has_prefix(s: Seq<char>, p: Seq<char>) -> bool {
    occurs_at(s, p, 0)
}

/// What follows the prefix `p` of `s`.
pub open spec fn after_prefix(s: Seq<char>, p: Seq<char>) -> Option<Seq<char>> {
    if has_prefix(s, p) {
        Some(s.skip(p.len() as int))
    } else {
        None
    }
}

/// Whether `p` stands anywhere in `s`.
pub open spec fn holds(s: Seq<char>, p: Seq<char>) -> bool {
    exists|i: int| occurs_at(s, p, i)
}

/// The text before and after the first occurrence of `p`.
pub open spec fn cut(s: Seq<char>, p: Seq<char>) -> Option<(Seq<char>, Seq<char>)> {
    match find_from(s, p, 0) {
        Some(i) => Some((s.take(i), s.skip(i + p.len()))),
        None => None,
    }
}

/// The text before the first occurrence of `p`, or all of it.
pub open spec fn head(s: Seq<char>, p: Seq<char>) -> Seq<char> {
    match cut(s, p) {
        Some(parts) => parts.0,
        None => s,
    }
}

/// `find_from` gives a position exactly where there is one.
pub proof fn lemma_find_from(s: Seq<char>, p: Seq<char>, i: int)
    requires
        0 <= i,
    ensures
        match find_from(s, p, i) {
            Some(k) => i <= k && occurs_at(s, p, k) && forall|j: int|
                i <= j < k ==> !occurs_at(s, p, j),
            None => forall|j: int| i <= j ==> !occurs_at(s, p, j),
        },
    decreases s.len() + 1 - i,
{
    if i + p.len() <= s.len() && !occurs_at(s, p, i) {
        lemma_find_from(s, p, i + 1);
    }
}

/// Whether `p` stands in `s` at position `i`.
pub fn matches_at(s: &Vec<char>, p: &Vec<char>, i: usize) -> (r: bool)
    ensures
        r == occurs_at(s@, p@, i as int),
{
    let n: usize = s.len();
    if i > n || p.len() > n - i {
        return false;
    }
    let mut k: usize = 0;
    while k < p.len()
        invariant
            i + p@.len() <= s@.len() == n,
            k <= p@.len(),
            forall|j: int| 0 <= j < k ==> s@[i + j] == p@[j],
        decreases p@.len() - k,
    {
        if s[i + k] != p[k] {
            proof {
                assert(s@.subrange(i as int, i + p@.len())[k as int] != p@[k as int]);
            }
            return false;
        }
        k += 1;
    }
    proof {
        assert(s@.subrange(i as int, i + p@.len()) =~= p@);
    }
    true
}

/// The first position of `p` in `s` that is not before `from`.
pub fn find(s: &Vec<char>, p: &Vec<char>, from: usize) -> (r: Option<usize>)
    ensures
        match r {
            Some(k) => find_from(s@, p@, from as int) == Some(k as int),
            None => find_from(s@, p@, from as int) is None,
        },
{
    let mut i: usize = from;
    while i <= s.len() && p.len() <= s.len() - i
        invariant
            from <= i,
            from <= s@.len() ==> i <= s@.len() + 1,
            find_from(s@, p@, from as int) == find_from(s@, p@, i as int),
        decreases s@.len() + 1 - i,
    {
        if matches_at(s, p, i) {
            return Some(i);
        }
        if i == s.len() {
            proof {
                assert(find_from(s@, p@, i as int) == find_from(s@, p@, i + 1));
            }
            return None;
        }
        i += 1;
    }
    None
}

/// Whether `s` starts with `p`.
pub fn starts_with(s: &str, p: &str) -> (r: bool)
    ensures
        r == has_prefix(s@, p@),
{
    matches_at(&chars_of(s), &chars_of(p), 0)
}

/// What follows the prefix `p` of `s`, if `s` starts with it.
pub fn strip_prefix(s: &str, p: &str) -> (r: Option<String>)
    ensures
        match r {
            Some(rest) => after_prefix(s@, p@) == Some(rest@),
            None => after_prefix(s@, p@) is None,
        },
{
    let v = chars_of(s);
    let q = chars_of(p);
    if matches_at(&v, &q, 0) {
        let rest = string_of(&v, q.len(), v.len());
        proof {
            assert(rest@ =~= s@.skip(p@.len() as int));
        }
        Some(rest)
    } else {
        None
    }
}

/// Whether `p` is the end of `s`.
pub open spec fn has_suffix(s: Seq<char>, p: Seq<char>) -> bool {
    p.len() <= s.len() && s.skip(s.len() - p.len()) == p
}

/// Whether `p` is the end of `s`.
pub fn ends_with(s: &str, p: &str) -> (r: bool)
    ensures
        r == has_suffix(s@, p@),
{
    let v = chars_of(s);
    let q = chars_of(p);
    if q.len() > v.len() {
        return false;
    }
    let at: usize = v.len() - q.len();
    proof {
        assert(s@.subrange(at as int, at + p@.len()) =~= s@.skip(at as int));
    }
    matches_at(&v, &q, at)
}

/// Whether `needle` stands anywhere in `s`.
pub fn contains(s: &str, needle: &str) -> (r: bool)
    ensures
        r == holds(s@, needle@),
{
    let found = find(&chars_of(s), &chars_of(needle), 0);
    proof {
        lemma_find_from(s@, needle@, 0);
        if found is Some {
            assert(occurs_at(s@, needle@, found->0 as int));
        }
    }
    found.is_some()
}

/// The text before and after the first occurrence of `p`, if there is one.
pub fn split_once(s: &str, p: &str) -> (r: Option<(String, String)>)
    ensures
        match r {
            Some((before, after)) => cut(s@, p@) == Some((before@, after@)),
            None => cut(s@, p@) is None,
        },
{
    let v = chars_of(s);
    let q = chars_of(p);
    proof {
        lemma_find_from(s@, p@, 0);
    }
    match find(&v, &q, 0) {
        Some(i) => {
            let n: usize = v.len();
            let before = string_of(&v, 0, i);
            let after = string_of(&v, i + q.len(), n);
            proof {
                assert(before@ =~= s@.take(i as int));
                assert(after@ =~= s@.skip(i + p@.len()));
            }
            Some((before, after))
        },
        None => None,
    }
}

/// The text before the first occurrence of `p`, or all of it.
pub fn first_part(s: &str, p: &str) -> (r: String)
    ensures
        r@ == head(s@, p@),
{
    match split_once(s, p) {
        Some((before, _)) => before,
        None => s.to_owned(),
    }
}

/// Cutting at the first occurrence loses nothing: the two parts around `p` are the whole text.
pub proof fn law_cut_joins_back(s: Seq<char>, p: Seq<char>)
    ensures
        match cut(s, p) {
            Some((before, after)) => before + p + after == s && !(exists|i: int|
                i < before.len() && occurs_at(s, p, i)),
            None => !holds(s, p),
        },
{
    lemma_find_from(s, p, 0);
    if let Some(i) = find_from(s, p, 0) {
        assert(s.take(i) + p + s.skip(i + p.len()) =~= s) by {
            assert(p == s.subrange(i, i + p.len()));
        }
    }
}

// ---------------------------------------------------------------------------
// Trimming and splitting
// ---------------------------------------------------------------------------

/// The text without its leading white space.
pub open spec fn trim_start(s: Seq<char>) -> Seq<char>
    decreases s.len(),
{
    if s.len() > 0 && white_space(s[0]) {
        trim_start(s.drop_first())
    } else {
        s
    }
}

/// The text without its trailing white space.
pub open spec fn trim_end(s: Seq<char>) -> Seq<char>
    decreases s.len(),
{
    if s.len() > 0 && white_space(s.last()) {
        trim_end(s.drop_last())
    } else {
        s
    }
}

/// The text without white space at either end.
pub open spec fn trimmed(s: Seq<char>) -> Seq<char> {
    trim_end(trim_start(s))
}

/// The text without white space at either end.
pub fn trim(s: &str) -> (r: String)
    ensures
        r@ == trimmed(s@),
{
    let v = chars_of(s);
    let mut from: usize = 0;
    proof {
        assert(s@.skip(0) =~= s@);
    }
    while from < v.len() && is_white_space(v[from])
        invariant
            v@ == s@,
            from <= v@.len(),
            trim_start(s@) == trim_start(s@.skip(from as int)),
        decreases v@.len() - from,
    {
        proof {
            assert(s@.skip(from as int).drop_first() =~= s@.skip(from + 1));
        }
        from += 1;
    }
    proof {
        assert(trim_start(s@) == s@.skip(from as int));
        assert(s@.skip(from as int) =~= s@.subrange(from as int, s@.len() as int));
    }
    let mut to: usize = v.len();
    while to > from && is_white_space(v[to - 1])
        invariant
            v@ == s@,
            from <= to <= v@.len(),
            trimmed(s@) == trim_end(s@.subrange(from as int, to as int)),
        decreases to,
    {
        proof {
            assert(s@.subrange(from as int, to as int).drop_last() =~= s@.subrange(
                from as int,
                to - 1,
            ));
        }
        to -= 1;
    }
    string_of(&v, from, to)
}

/// How many characters stand before the first white space.
pub open spec fn word_len(s: Seq<char>) -> nat
    decreases s.len(),
{
    if s.len() == 0 || white_space(s[0]) {
        0
    } else {
        1 + word_len(s.drop_first())
    }
}

pub proof fn lemma_word_len(s: Seq<char>)
    ensures
        word_len(s) <= s.len(),
    decreases s.len(),
{
    if s.len() > 0 {
        lemma_word_len(s.drop_first());
    }
}

pub proof fn lemma_trim_start_len(s: Seq<char>)
    ensures
        trim_start(s).len() <= s.len(),
        trim_start(s).len() > 0 ==> !white_space(trim_start(s)[0]),
    decreases s.len(),
{
    if s.len() > 0 && white_space(s[0]) {
        lemma_trim_start_len(s.drop_first());
    }
}

/// The maximal runs of characters that are not white space, in order.
pub open spec fn words(s: Seq<char>) -> Seq<Seq<char>>
    decreases s.len(),
{
    let t = trim_start(s);
    if t.len() == 0 {
        Seq::empty()
    } else {
        proof {
            lemma_trim_start_len(s);
            lemma_word_len(t);
        }
        seq![t.take(word_len(t) as int)] + words(t.skip(word_len(t) as int))
    }
}

/// The words of a text: its maximal runs of characters that are not white space.
pub fn split_whitespace(s: &str) -> (r: Vec<String>)
    ensures
        views(r@) == words(s@),
{
    let v = chars_of(s);
    let mut out: Vec<String> = Vec::new();
    let mut i: usize = 0;
    proof {
        assert(s@.skip(0) =~= s@);
        assert(views(out@) + words(s@) =~= words(s@));
    }
    while i < v.len()
        invariant
            v@ == s@,
            i <= v@.len(),
            words(s@) == views(out@) + words(s@.skip(i as int)),
        decreases v@.len() - i,
    {
        let ghost rest = s@.skip(i as int);
        if is_white_space(v[i]) {
            proof {
                assert(rest.drop_first() =~= s@.skip(i + 1));
                assert(trim_start(rest) == trim_start(s@.skip(i + 1)));
            }
            i += 1;
        } else {
            let start: usize = i;
            proof {
                assert(trim_start(rest) == rest);
                assert(rest.skip(0) =~= rest);
            }
            while i < v.len() && !is_white_space(v[i])
                invariant
                    v@ == s@,
                    start <= i <= v@.len(),
                    rest == s@.skip(start as int),
                    word_len(rest) == (i - start) + word_len(rest.skip(i - start)),
                decreases v@.len() - i,
            {
                proof {
                    assert(rest.skip(i - start).drop_first() =~= rest.skip(i + 1 - start));
                }
                i += 1;
            }
            let ghost before = views(out@);
            let word = string_of(&v, start, i);
            proof {
                assert(word_len(rest) == i - start);
                assert(word@ =~= rest.take(i - start));
                assert(rest.skip(i - start) =~= s@.skip(i as int));
                lemma_word_len(rest);
            }
            out.push(word);
            proof {
                assert(views(out@) =~= before.push(word@));
                assert(words(rest) == seq![word@] + words(s@.skip(i as int)));
                assert(before + (seq![word@] + words(s@.skip(i as int))) =~= views(out@) + words(
                    s@.skip(i as int),
                ));
            }
        }
    }
    proof {
        assert(s@.skip(i as int) =~= Seq::<char>::empty());
        assert(words(s@.skip(i as int)) =~= Seq::<Seq<char>>::empty());
        assert(views(out@) + Seq::<Seq<char>>::empty() =~= views(out@));
    }
    out
}

/// A line without the carriage return that ends it.
pub open spec fn without_return(s: Seq<char>) -> Seq<char> {
    if s.len() > 0 && s.last() == '\r' {
        s.drop_last()
    } else {
        s
    }
}

/// How many characters stand before the first line feed.
pub open spec fn line_len(s: Seq<char>) -> nat
    decreases s.len(),
{
    if s.len() == 0 || s[0] == '\n' {
        0
    } else {
        1 + line_len(s.drop_first())
    }
}

/// The lines of a text. A line ends with a line feed, or a carriage return and a line feed; a last
/// line may go without.
pub open spec fn lines_of(s: Seq<char>) -> Seq<Seq<char>>
    decreases s.len(),
{
    let n = line_len(s) as int;
    if s.len() == 0 {
        Seq::empty()
    } else if n >= s.len() {
        seq![s]
    } else {
        seq![without_return(s.take(n))] + lines_of(s.skip(n + 1))
    }
}

/// The lines of a text, without the characters that end them.
pub fn lines(s: &str) -> (r: Vec<String>)
    ensures
        views(r@) == lines_of(s@),
{
    let v = chars_of(s);
    let mut out: Vec<String> = Vec::new();
    let mut i: usize = 0;
    proof {
        assert(s@.skip(0) =~= s@);
        assert(views(out@) + lines_of(s@) =~= lines_of(s@));
    }
    while i < v.len()
        invariant
            v@ == s@,
            i <= v@.len(),
            lines_of(s@) == views(out@) + lines_of(s@.skip(i as int)),
        decreases v@.len() - i,
    {
        let ghost rest = s@.skip(i as int);
        let start: usize = i;
        proof {
            assert(rest.skip(0) =~= rest);
        }
        while i < v.len() && v[i] != '\n'
            invariant
                v@ == s@,
                start <= i <= v@.len(),
                rest == s@.skip(start as int),
                line_len(rest) == (i - start) + line_len(rest.skip(i - start)),
            decreases v@.len() - i,
        {
            proof {
                assert(rest.skip(i - start).drop_first() =~= rest.skip(i + 1 - start));
            }
            i += 1;
        }
        let ghost before = views(out@);
        proof {
            assert(line_len(rest) == i - start);
        }
        let mut end: usize = i;
        if i < v.len() {
            if end > start && v[end - 1] == '\r' {
                end -= 1;
            }
            i += 1;
        }
        let line = string_of(&v, start, end);
        proof {
            let n = line_len(rest) as int;
            if n >= rest.len() {
                assert(line@ =~= rest);
                assert(s@.skip(i as int) =~= Seq::<char>::empty());
                assert(lines_of(s@.skip(i as int)) =~= Seq::<Seq<char>>::empty());
                assert(lines_of(rest) =~= seq![line@] + lines_of(s@.skip(i as int)));
            } else {
                assert(line@ =~= without_return(rest.take(n)));
                assert(rest.skip(n + 1) =~= s@.skip(i as int));
            }
        }
        out.push(line);
        proof {
            assert(views(out@) =~= before.push(line@));
            assert(before + (seq![line@] + lines_of(s@.skip(i as int))) =~= views(out@) + lines_of(
                s@.skip(i as int),
            ));
        }
    }
    proof {
        assert(s@.skip(i as int) =~= Seq::<char>::empty());
        assert(lines_of(s@.skip(i as int)) =~= Seq::<Seq<char>>::empty());
        assert(views(out@) + Seq::<Seq<char>>::empty() =~= views(out@));
    }
    out
}

// ---------------------------------------------------------------------------
// Case and character classes
// ---------------------------------------------------------------------------

/// What `str::to_lowercase` makes of a text.
pub uninterp spec fn lowercase(s: Seq<char>) -> Seq<char>;

/// Calls `str::to_lowercase`. The result depends on the text alone, and the empty text stays empty.
#[verifier::external_body]
pub(crate) fn to_lowercase(s: &str) -> (r: String)
    ensures
        r@ == lowercase(s@),
        s@.len() == 0 ==> r@.len() == 0,
{
    s.to_lowercase()
}

/// What `str::to_uppercase` makes of a text.
pub uninterp spec fn uppercase(s: Seq<char>) -> Seq<char>;

/// Calls `str::to_uppercase`. The result depends on the text alone, and the empty text stays empty.
#[verifier::external_body]
pub(crate) fn to_uppercase(s: &str) -> (r: String)
    ensures
        r@ == uppercase(s@),
        s@.len() == 0 ==> r@.len() == 0,
{
    s.to_uppercase()
}

/// What `char::is_alphanumeric` says of a character.
pub uninterp spec fn alphanumeric(c: char) -> bool;

/// Whether `c` is an ASCII letter or digit.
pub open spec fn ascii_alphanumeric(c: char) -> bool {
    ||| '0' <= c <= '9'
    ||| 'A' <= c <= 'Z'
    ||| 'a' <= c <= 'z'
}

/// Calls `char::is_alphanumeric`. The result depends on the character alone, and among the ASCII
/// characters it is true of the letters and the digits.
#[verifier::external_body]
pub(crate) fn is_alphanumeric(c: char) -> (r: bool)
    ensures
        r == alphanumeric(c),
        c < '\u{80}' ==> r == ascii_alphanumeric(c),
{
    c.is_alphanumeric()
}

// ---------------------------------------------------------------------------
// Order
// ---------------------------------------------------------------------------

/// The order of texts by their first differing character, a proper prefix coming first.
pub open spec fn text_before(a: Seq<char>, b: Seq<char>) -> bool
    decreases a.len(),
{
    if b.len() == 0 {
        false
    } else if a.len() == 0 {
        true
    } else if a[0] != b[0] {
        a[0] < b[0]
    } else {
        text_before(a.drop_first(), b.drop_first())
    }
}

/// Whether `a` comes before `b` in the order of texts.
pub fn comes_before(a: &str, b: &str) -> (r: bool)
    ensures
        r == text_before(a@, b@),
{
    let x = chars_of(a);
    let y = chars_of(b);
    let mut i: usize = 0;
    proof {
        assert(a@.skip(0) =~= a@);
        assert(b@.skip(0) =~= b@);
    }
    while i < x.len() && i < y.len()
        invariant
            x@ == a@,
            y@ == b@,
            i <= x@.len(),
            i <= y@.len(),
            text_before(a@, b@) == text_before(a@.skip(i as int), b@.skip(i as int)),
        decreases x@.len() - i,
    {
        if x[i] != y[i] {
            return x[i] < y[i];
        }
        proof {
            assert(a@.skip(i as int).drop_first() =~= a@.skip(i + 1));
            assert(b@.skip(i as int).drop_first() =~= b@.skip(i + 1));
        }
        i += 1;
    }
    i < y.len()
}

// ---------------------------------------------------------------------------
// Paths
// ---------------------------------------------------------------------------

/// A path below `base`. An absolute `child` stands for itself.
pub open spec fn path_join(base: Seq<char>, child: Seq<char>) -> Seq<char> {
    if has_prefix(child, seq!['/']) {
        child
    } else if base.len() == 0 || base.last() == '/' {
        base + child
    } else {
        base.push('/') + child
    }
}

/// The path of `child` below `base`. An absolute `child` stands for itself.
pub fn join_path(base: &str, child: &str) -> (r: String)
    ensures
        r@ == path_join(base@, child@),
{
    let c = chars_of(child);
    let b = chars_of(base);
    if c.len() > 0 && c[0] == '/' {
        proof {
            assert(child@.subrange(0, 1) =~= seq!['/']);
        }
        return child.to_owned();
    }
    proof {
        if has_prefix(child@, seq!['/']) {
            assert(child@.subrange(0, 1)[0] == '/');
        }
    }
    let mut r = base.to_owned();
    if b.len() > 0 && b[b.len() - 1] != '/' {
        r.push('/');
    }
    r.append(child);
    r
}

} // verus!
