//! What holds of texts, their lines and their words.

use vstd::prelude::*;

use crate::text::{
    after_prefix, ascii_alphanumeric, cut, find_from, has_prefix, has_suffix, head, holds,
    lemma_find_from, line_len, lines_of, occurs_at, path_join, text_before, trim_end, trim_start,
    trimmed, white_space, word_len, words,
};

verus! {

/// White space among the ASCII characters is the space and the characters from the tabulator to the
/// carriage return.
pub proof fn law_ascii_white_space(c: char)
    requires
        c < '\u{80}',
    ensures
        white_space(c) <==> c == ' ' || '\t' <= c <= '\r',
{
}

proof fn lemma_trim_start(s: Seq<char>)
    ensures
        exists|i: int|
            0 <= i <= s.len() && trim_start(s) == #[trigger] s.skip(i) && (forall|x: int|
                0 <= x < i ==> white_space(#[trigger] s[x])) && (i < s.len() ==> !white_space(s[i])),
    decreases s.len(),
{
    if s.len() > 0 && white_space(s[0]) {
        let r = s.drop_first();
        lemma_trim_start(r);
        let i = choose|i: int|
            0 <= i <= r.len() && trim_start(r) == #[trigger] r.skip(i) && (forall|x: int|
                0 <= x < i ==> white_space(#[trigger] r[x])) && (i < r.len() ==> !white_space(r[i]));
        assert(r.skip(i) =~= s.skip(i + 1));
        assert forall|x: int| 0 <= x < i + 1 implies white_space(#[trigger] s[x]) by {
            if x > 0 {
                assert(r[x - 1] == s[x]);
            }
        }
    } else {
        assert(s.skip(0) =~= s);
    }
}

proof fn lemma_trim_end(s: Seq<char>)
    ensures
        exists|j: int|
            0 <= j <= s.len() && trim_end(s) == #[trigger] s.take(j) && (forall|x: int|
                j <= x < s.len() ==> white_space(#[trigger] s[x])) && (j > 0 ==> !white_space(s[j - 1])),
    decreases s.len(),
{
    if s.len() > 0 && white_space(s.last()) {
        let r = s.drop_last();
        lemma_trim_end(r);
        let j = choose|j: int|
            0 <= j <= r.len() && trim_end(r) == #[trigger] r.take(j) && (forall|x: int|
                j <= x < r.len() ==> white_space(#[trigger] r[x])) && (j > 0 ==> !white_space(r[j - 1]));
        assert(r.take(j) =~= s.take(j));
        assert forall|x: int| j <= x < s.len() implies white_space(#[trigger] s[x]) by {
            if x < r.len() {
                assert(r[x] == s[x]);
            }
        }
    } else {
        assert(s.take(s.len() as int) =~= s);
    }
}

/// Trimming takes white space from both ends and nothing else: what is left is a piece of the text,
/// with only white space before and after it and none at its own ends.
pub proof fn law_trimming(s: Seq<char>)
    ensures
        exists|i: int, j: int|
            0 <= i <= j <= s.len() && trimmed(s) == #[trigger] s.subrange(i, j) && (forall|x: int|
                0 <= x < i || j <= x < s.len() ==> white_space(#[trigger] s[x])) && (i < j
                ==> !white_space(s[i]) && !white_space(s[j - 1])),
{
    lemma_trim_start(s);
    let i = choose|i: int|
        0 <= i <= s.len() && trim_start(s) == #[trigger] s.skip(i) && (forall|x: int|
            0 <= x < i ==> white_space(#[trigger] s[x])) && (i < s.len() ==> !white_space(s[i]));
    let t = s.skip(i);
    lemma_trim_end(t);
    let j = choose|j: int|
        0 <= j <= t.len() && trim_end(t) == #[trigger] t.take(j) && (forall|x: int|
            j <= x < t.len() ==> white_space(#[trigger] t[x])) && (j > 0 ==> !white_space(t[j - 1]));
    assert(t.take(j) =~= s.subrange(i, i + j));
    assert forall|x: int| 0 <= x < i || i + j <= x < s.len() implies white_space(#[trigger] s[x]) by {
        if x >= i {
            assert(t[x - i] == s[x]);
        }
    }
    if j > 0 {
        assert(t[j - 1] == s[i + j - 1]);
    }
}

proof fn lemma_line_len(a: Seq<char>, b: Seq<char>)
    requires
        !a.contains('\n'),
    ensures
        line_len(a) == a.len(),
        line_len(a + seq!['\n'] + b) == a.len(),
    decreases a.len(),
{
    let s = a + seq!['\n'] + b;
    if a.len() > 0 {
        let r = a.drop_first();
        assert(a[0] != '\n');
        assert(!r.contains('\n')) by {
            if r.contains('\n') {
                let i = choose|i: int| 0 <= i < r.len() && r[i] == '\n';
                assert(a[i + 1] == '\n');
            }
        }
        lemma_line_len(r, b);
        assert(s.drop_first() =~= r + seq!['\n'] + b);
    } else {
        assert(s[0] == '\n');
    }
}

/// A line feed ends a line, and takes a carriage return before it along; the lines after it are those
/// of the rest. A text without a line feed is one line, and the empty text none.
pub proof fn law_lines(a: Seq<char>, b: Seq<char>)
    requires
        !a.contains('\n'),
    ensures
        lines_of(a + seq!['\n'] + b) == seq![
            if a.len() > 0 && a.last() == '\r' {
                a.drop_last()
            } else {
                a
            },
        ] + lines_of(b),
        lines_of(a) == (if a.len() == 0 {
            Seq::<Seq<char>>::empty()
        } else {
            seq![a]
        }),
{
    lemma_line_len(a, b);
    let s = a + seq!['\n'] + b;
    assert(s.take(a.len() as int) =~= a);
    assert(s.skip(a.len() as int + 1) =~= b);
}

proof fn lemma_word_len_all(a: Seq<char>, c: char, b: Seq<char>)
    requires
        forall|x: int| 0 <= x < a.len() ==> !white_space(#[trigger] a[x]),
        white_space(c),
    ensures
        word_len(a) == a.len(),
        word_len(a + seq![c] + b) == a.len(),
    decreases a.len(),
{
    let s = a + seq![c] + b;
    if a.len() > 0 {
        let r = a.drop_first();
        assert forall|x: int| 0 <= x < r.len() implies !white_space(#[trigger] r[x]) by {
            assert(r[x] == a[x + 1]);
        }
        lemma_word_len_all(r, c, b);
        assert(s.drop_first() =~= r + seq![c] + b);
        assert(s[0] == a[0]);
    } else {
        assert(s[0] == c);
    }
}

proof fn lemma_word_len_within(a: Seq<char>, t: Seq<char>)
    requires
        word_len(a) < a.len(),
    ensures
        word_len(a + t) == word_len(a),
        white_space(a[word_len(a) as int]),
    decreases a.len(),
{
    assert((a + t)[0] == a[0]);
    if !white_space(a[0]) {
        lemma_word_len_within(a.drop_first(), t);
        assert((a + t).drop_first() =~= a.drop_first() + t);
    }
}

proof fn lemma_word_len_bound(a: Seq<char>)
    ensures
        word_len(a) <= a.len(),
        forall|x: int| 0 <= x < word_len(a) ==> !white_space(#[trigger] a[x]),
        a.len() > 0 && !white_space(a[0]) ==> word_len(a) > 0,
    decreases a.len(),
{
    if a.len() > 0 && !white_space(a[0]) {
        let r = a.drop_first();
        lemma_word_len_bound(r);
        assert forall|x: int| 0 <= x < word_len(a) implies !white_space(#[trigger] a[x]) by {
            if x > 0 {
                assert(r[x - 1] == a[x]);
            }
        }
    }
}

/// White space parts a text into words: the words around it are those before it followed by those
/// after it, and a text without white space is one word.
pub proof fn law_words(a: Seq<char>, c: char, b: Seq<char>)
    requires
        white_space(c),
    ensures
        words(a + seq![c] + b) == words(a) + words(b),
        a.len() > 0 && (forall|x: int| 0 <= x < a.len() ==> !white_space(#[trigger] a[x])) ==> words(a)
            == seq![a],
        words(Seq::empty()) == Seq::<Seq<char>>::empty(),
    decreases a.len(),
{
    let s = a + seq![c] + b;
    if a.len() == 0 {
        assert(s[0] == c);
        assert(s.drop_first() =~= b);
        assert(trim_start(s) == trim_start(b));
        assert(words(a) =~= Seq::empty());
        assert(words(a) + words(b) =~= words(b));
    } else if white_space(a[0]) {
        law_words(a.drop_first(), c, b);
        assert(s[0] == a[0]);
        assert(s.drop_first() =~= a.drop_first() + seq![c] + b);
        assert(trim_start(s) == trim_start(s.drop_first()));
        assert(trim_start(a) == trim_start(a.drop_first()));
    } else {
        lemma_word_len_bound(a);
        let n = word_len(a) as int;
        assert(s[0] == a[0]);
        assert(trim_start(s) == s && trim_start(a) == a);
        if n == a.len() {
            lemma_word_len_all(a, c, b);
            assert(s.take(n) =~= a);
            assert(a.take(n) =~= a);
            assert(s.skip(n) =~= Seq::<char>::empty() + seq![c] + b);
            assert(a.skip(n) =~= Seq::empty());
            law_words(Seq::empty(), c, b);
            assert(words(s) =~= seq![a] + words(b));
            assert(words(a) =~= seq![a]);
        } else {
            lemma_word_len_within(a, seq![c] + b);
            assert(s =~= a + (seq![c] + b));
            assert(s.take(n) =~= a.take(n));
            assert(s.skip(n) =~= a.skip(n) + seq![c] + b);
            law_words(a.skip(n), c, b);
            assert(words(s) =~= words(a) + words(b));
            assert(white_space(a[n]));
        }
    }
}

/// A text comes before another where they first differ: by the smaller character there, or by ending
/// there.
pub proof fn law_text_order(a: Seq<char>, b: Seq<char>)
    ensures
        text_before(a, b) <==> exists|k: int|
            0 <= k <= a.len() && k < b.len() && #[trigger] a.take(k) == b.take(k) && (k == a.len() || a[k]
                < b[k]),
    decreases a.len(),
{
    if b.len() > 0 && a.len() == 0 {
        assert(a.take(0) =~= b.take(0));
    } else if b.len() > 0 && a.len() > 0 && a[0] != b[0] {
        assert(a.take(0) =~= b.take(0));
        if exists|k: int|
            0 <= k <= a.len() && k < b.len() && #[trigger] a.take(k) == b.take(k) && (k == a.len()
                || a[k] < b[k]) {
            let k = choose|k: int|
                0 <= k <= a.len() && k < b.len() && #[trigger] a.take(k) == b.take(k) && (k == a.len()
                    || a[k] < b[k]);
            if k > 0 {
                assert(a.take(k)[0] == b.take(k)[0]);
            }
        }
    } else if b.len() > 0 && a.len() > 0 {
        let x = a.drop_first();
        let y = b.drop_first();
        law_text_order(x, y);
        if text_before(x, y) {
            let k = choose|k: int|
                0 <= k <= x.len() && k < y.len() && #[trigger] x.take(k) == y.take(k) && (k == x.len()
                    || x[k] < y[k]);
            assert(a.take(k + 1) =~= seq![a[0]] + x.take(k));
            assert(b.take(k + 1) =~= seq![b[0]] + y.take(k));
        }
        if exists|k: int|
            0 <= k <= a.len() && k < b.len() && #[trigger] a.take(k) == b.take(k) && (k == a.len()
                || a[k] < b[k]) {
            let k = choose|k: int|
                0 <= k <= a.len() && k < b.len() && #[trigger] a.take(k) == b.take(k) && (k == a.len()
                    || a[k] < b[k]);
            assert(k > 0);
            assert(x.take(k - 1) =~= a.take(k).drop_first());
            assert(y.take(k - 1) =~= b.take(k).drop_first());
        }
    }
}

/// A text is cut where the piece first stands: the parts around it make the text again, and however
/// else the text is made of parts around the piece, the first part is no shorter. Where there is no cut
/// the text is not made so at all.
pub proof fn law_cut_is_first(s: Seq<char>, p: Seq<char>, before: Seq<char>, after: Seq<char>)
    ensures
        cut(s, p) matches Some((x, y)) ==> x + p + y == s,
        before + p + after == s ==> (cut(s, p) matches Some((x, y)) && x.len() <= before.len()),
{
    lemma_find_from(s, p, 0);
    if let Some(i) = find_from(s, p, 0) {
        assert(s.take(i) + p + s.skip(i + p.len()) =~= s) by {
            assert(p == s.subrange(i, i + p.len()));
        }
    }
    if before + p + after == s {
        let n = before.len() as int;
        assert(s.subrange(n, n + p.len()) =~= p);
        assert(occurs_at(s, p, n));
    }
}

/// A path below another is made with one separator between them, and an absolute path stands for
/// itself.
pub proof fn law_paths(base: Seq<char>, child: Seq<char>)
    ensures
        child.len() > 0 && child[0] == '/' ==> path_join(base, child) == child,
        (child.len() == 0 || child[0] != '/') && base.len() > 0 && base.last() != '/' ==> path_join(
            base,
            child,
        ) == base + seq!['/'] + child,
        (child.len() == 0 || child[0] != '/') && (base.len() == 0 || base.last() == '/') ==> path_join(
            base,
            child,
        ) == base + child,
{
    if child.len() > 0 && child[0] == '/' {
        assert(child.subrange(0, 1) =~= seq!['/']);
    } else if child.len() > 0 {
        assert(child.subrange(0, 1)[0] != '/');
    }
    assert(base.push('/') + child =~= base + seq!['/'] + child);
}

/// A text starts, and ends, with another exactly if the rest of it makes up the whole.
pub proof fn law_starts_and_ends(s: Seq<char>, p: Seq<char>, rest: Seq<char>)
    ensures
        has_prefix(s, p) <==> p.is_prefix_of(s),
        has_suffix(s, p) <==> p.is_suffix_of(s),
        after_prefix(p + rest, p) == Some(rest),
        has_suffix(rest + p, p),
        !p.is_prefix_of(s) ==> after_prefix(s, p) is None,
{
    assert((p + rest).subrange(0, p.len() as int) =~= p);
    assert((p + rest).skip(p.len() as int) =~= rest);
    assert((rest + p).skip(rest.len() as int) =~= p);
    if p.len() <= s.len() {
        assert(s.skip(s.len() - p.len()) =~= s.subrange(s.len() - p.len(), s.len() as int));
    }
}

/// A text holds another exactly if it stands in one piece somewhere in it.
pub proof fn law_texts_in_texts(before: Seq<char>, p: Seq<char>, after: Seq<char>, s: Seq<char>)
    ensures
        holds(before + p + after, p),
        holds(s, p) ==> exists|i: int|
            0 <= i <= s.len() - p.len() && #[trigger] s.subrange(i, i + p.len()) == p,
        head(s, p) == s || (head(s, p) + p).is_prefix_of(s),
        !holds(s, p) ==> head(s, p) == s,
        !holds(before, p) && p.len() == 1 ==> head(before + p + after, p) == before,
{
    let all = before + p + after;
    let at = before.len() as int;
    assert(all.subrange(at, at + p.len()) =~= p);
    assert(occurs_at(all, p, at));
    if holds(s, p) {
        let i = choose|i: int| occurs_at(s, p, i);
        assert(s.subrange(i, i + p.len()) == p);
    }
    lemma_find_from(s, p, 0);
    if let Some(i) = find_from(s, p, 0) {
        assert(occurs_at(s, p, i));
        assert(s.take(i) + p =~= s.subrange(0, i + p.len()));
    }
    if !holds(before, p) && p.len() == 1 {
        lemma_find_from(all, p, 0);
        let i = find_from(all, p, 0)->0;
        assert(all.subrange(i, i + 1) == p);
        if i < at {
            assert(before.subrange(i, i + 1) =~= all.subrange(i, i + 1));
            assert(occurs_at(before, p, i));
        }
        assert(all.take(at) =~= before);
    }
}

/// The ASCII letters and digits.
pub proof fn law_ascii_letters_and_digits(c: char)
    ensures
        ascii_alphanumeric(c) <==> 0x30 <= c as int <= 0x39 || 0x41 <= c as int <= 0x5a || 0x61 <= c as int
            <= 0x7a,
{
}

} // verus!
