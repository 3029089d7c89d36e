//! Applications, as desktop entry files describe them.

use vstd::prelude::*;

use crate::search::{kept, lemma_kept_all, lemma_kept_contains, lemma_kept_step};
use crate::shell::{command_line, command_words, join, shell_join, shell_split};
use crate::text::{
    after_prefix, chars_of, ends_with, has_prefix, has_suffix, lines, lines_of, same, starts_with,
    strip_prefix, trim, trimmed, views,
};

verus! {

// ---------------------------------------------------------------------------
// Field codes
// ---------------------------------------------------------------------------

/// The letters of the field codes.
pub open spec fn field_letters() -> Seq<char> {
    seq!['u', 'U', 'f', 'F', 'd', 'D', 'n', 'N', 'i', 'c', 'k', 'v', 'm']
}

/// Whether a word is a field code: a percent sign and one of the letters.
pub open spec fn is_field_code(word: Seq<char>) -> bool {
    word.len() == 2 && word[0] == '%' && field_letters().contains(word[1])
}

/// The words that are no field codes.
pub open spec fn plain_words(words: Seq<Seq<char>>) -> Seq<Seq<char>> {
    kept(words, |w: Seq<char>| !is_field_code(w))
}

fn field_code(word: &str) -> (r: bool)
    ensures
        r == is_field_code(word@),
{
    let w = chars_of(word);
    if w.len() != 2 || w[0] != '%' {
        return false;
    }
    let c = w[1];
    let ghost all = field_letters();
    proof {
        assert(all[0] == 'u' && all[1] == 'U' && all[2] == 'f' && all[3] == 'F' && all[4] == 'd'
            && all[5] == 'D' && all[6] == 'n' && all[7] == 'N' && all[8] == 'i' && all[9] == 'c'
            && all[10] == 'k' && all[11] == 'v' && all[12] == 'm');
    }
    c == 'u' || c == 'U' || c == 'f' || c == 'F' || c == 'd' || c == 'D' || c == 'n' || c == 'N' || c
        == 'i' || c == 'c' || c == 'k' || c == 'v' || c == 'm'
}

/// Drops the field codes among words.
pub fn without_field_codes(words: &Vec<String>) -> (r: Vec<String>)
    ensures
        views(r@) == plain_words(views(words@)),
{
    let ghost all = views(words@);
    let ghost p = |w: Seq<char>| !is_field_code(w);
    let mut r: Vec<String> = Vec::new();
    let mut i: usize = 0;
    proof {
        assert(views(r@) =~= kept(all.take(0), p));
    }
    while i < words.len()
        invariant
            i <= words@.len(),
            all == views(words@),
            p == (|w: Seq<char>| !is_field_code(w)),
            views(r@) == kept(all.take(i as int), p),
        decreases words@.len() - i,
    {
        let ghost before = views(r@);
        proof {
            lemma_kept_step(all, p, i as int);
        }
        if !field_code(words[i].as_str()) {
            let word = words[i].clone();
            r.push(word);
            proof {
                assert(views(r@) =~= before.push(all[i as int]));
            }
        }
        i += 1;
    }
    proof {
        assert(all.take(i as int) =~= all);
    }
    r
}

/// The command of an application: the command line without its field codes. Its words are the plain
/// words of the line, none of them a field code, and stripping it again changes nothing.
pub fn strip_field_codes(line: &str) -> (r: String)
    ensures
        r@ == shell_join(plain_words(command_words(line@))),
        shell_split(r@) == Some(plain_words(command_words(line@))),
        command_words(r@) == plain_words(command_words(line@)),
        shell_join(plain_words(command_words(r@))) == r@,
        forall|i: int|
            0 <= i < command_words(r@).len() ==> !is_field_code(#[trigger] command_words(r@)[i]),
{
    let words = command_line(line);
    let filtered = without_field_codes(&words);
    let r = join(&filtered);
    proof {
        let p = |w: Seq<char>| !is_field_code(w);
        let all = command_words(line@);
        let plain = plain_words(all);
        assert forall|i: int| 0 <= i < plain.len() implies p(#[trigger] plain[i]) by {
            lemma_kept_contains(all, p, plain[i]);
            assert(plain.contains(plain[i]));
        }
        lemma_kept_all(plain, p);
    }
    r
}

// ---------------------------------------------------------------------------
// Desktop entries
// ---------------------------------------------------------------------------

/// The lines of the desktop entry sections, without the white space around them and without the
/// section headers. `inside` says whether the first line stands in such a section.
pub open spec fn entry_lines(lines: Seq<Seq<char>>, inside: bool) -> Seq<Seq<char>>
    decreases lines.len(),
{
    if lines.len() == 0 {
        Seq::empty()
    } else {
        let line = trimmed(lines[0]);
        if has_prefix(line, "["@) {
            entry_lines(lines.drop_first(), line == "[Desktop Entry]"@)
        } else if inside {
            seq![line] + entry_lines(lines.drop_first(), inside)
        } else {
            entry_lines(lines.drop_first(), inside)
        }
    }
}

/// What follows `key` in the first of the lines that start with it.
pub open spec fn first_value(lines: Seq<Seq<char>>, key: Seq<char>) -> Option<Seq<char>>
    decreases lines.len(),
{
    if lines.len() == 0 {
        None
    } else if has_prefix(lines[0], key) {
        after_prefix(lines[0], key)
    } else {
        first_value(lines.drop_first(), key)
    }
}

/// What follows `key` in the last of the lines that start with it.
pub open spec fn last_value(lines: Seq<Seq<char>>, key: Seq<char>) -> Option<Seq<char>>
    decreases lines.len(),
{
    if lines.len() == 0 {
        None
    } else if has_prefix(lines.last(), key) {
        after_prefix(lines.last(), key)
    } else {
        last_value(lines.drop_last(), key)
    }
}

/// What a desktop entry says.
pub struct DesktopEntryView {
    pub name: Seq<char>,
    pub command: Seq<char>,
    pub icon: Option<Seq<char>>,
}

/// The application that the lines of a desktop entry describe. It must be of the type of
/// applications, have a name and a command, and not be hidden.
pub open spec fn described(lines: Seq<Seq<char>>) -> Option<DesktopEntryView> {
    match (first_value(lines, "Name="@), last_value(lines, "Exec="@)) {
        (Some(name), Some(command)) => if !lines.contains("NoDisplay=true"@) && last_value(
            lines,
            "Type="@,
        ) == Some("Application"@) {
            Some(DesktopEntryView { name, command, icon: first_value(lines, "Icon="@) })
        } else {
            None
        },
        _ => None,
    }
}

/// What the text of a desktop entry file describes.
pub open spec fn desktop_entry(content: Seq<char>) -> Option<DesktopEntryView> {
    described(entry_lines(lines_of(content), false))
}

fn section_lines(content: &str) -> (r: Vec<String>)
    ensures
        views(r@) == entry_lines(lines_of(content@), false),
{
    let all = lines(content);
    let ghost texts = views(all@);
    let mut r: Vec<String> = Vec::new();
    let mut inside = false;
    let mut i: usize = 0;
    proof {
        assert(texts.skip(0) =~= texts);
        assert(views(r@) + entry_lines(texts, false) =~= entry_lines(texts, false));
    }
    while i < all.len()
        invariant
            i <= all@.len(),
            texts == views(all@),
            views(r@) + entry_lines(texts.skip(i as int), inside) == entry_lines(texts, false),
        decreases all@.len() - i,
    {
        let line = trim(all[i].as_str());
        let ghost before = views(r@);
        let ghost rest = texts.skip(i as int);
        proof {
            assert(rest[0] == all@[i as int]@);
            assert(rest.drop_first() =~= texts.skip(i + 1));
        }
        if starts_with(line.as_str(), "[") {
            inside = same(line.as_str(), "[Desktop Entry]");
        } else if inside {
            let ghost text = line@;
            r.push(line);
            proof {
                assert(views(r@) =~= before + seq![text]);
                assert(views(r@) + entry_lines(texts.skip(i + 1), inside) =~= before + entry_lines(
                    rest,
                    inside,
                ));
            }
        }
        i += 1;
    }
    proof {
        assert(texts.skip(i as int) =~= Seq::empty());
        assert(views(r@) =~= entry_lines(texts, false));
    }
    r
}

fn value_of_first(lines: &Vec<String>, key: &str) -> (r: Option<String>)
    ensures
        crate::ipc::text_view(r) == first_value(views(lines@), key@),
{
    let ghost texts = views(lines@);
    let mut i: usize = 0;
    proof {
        assert(texts.skip(0) =~= texts);
    }
    while i < lines.len()
        invariant
            i <= lines@.len(),
            texts == views(lines@),
            first_value(texts.skip(i as int), key@) == first_value(texts, key@),
        decreases lines@.len() - i,
    {
        proof {
            assert(texts.skip(i as int)[0] == lines@[i as int]@);
            assert(texts.skip(i as int).drop_first() =~= texts.skip(i + 1));
        }
        if let Some(value) = strip_prefix(lines[i].as_str(), key) {
            return Some(value);
        }
        i += 1;
    }
    None
}

fn value_of_last(lines: &Vec<String>, key: &str) -> (r: Option<String>)
    ensures
        crate::ipc::text_view(r) == last_value(views(lines@), key@),
{
    let ghost texts = views(lines@);
    let mut n: usize = lines.len();
    proof {
        assert(texts.take(n as int) =~= texts);
    }
    while n > 0
        invariant
            n <= lines@.len(),
            texts == views(lines@),
            last_value(texts.take(n as int), key@) == last_value(texts, key@),
        decreases n,
    {
        proof {
            assert(texts.take(n as int).last() == lines@[n - 1]@);
            assert(texts.take(n as int).drop_last() =~= texts.take(n - 1));
        }
        if let Some(value) = strip_prefix(lines[n - 1].as_str(), key) {
            return Some(value);
        }
        n -= 1;
    }
    None
}

fn has_line(lines: &Vec<String>, line: &str) -> (r: bool)
    ensures
        r == views(lines@).contains(line@),
{
    let mut i: usize = 0;
    while i < lines.len()
        invariant
            i <= lines@.len(),
            forall|j: int| 0 <= j < i ==> #[trigger] views(lines@)[j] != line@,
        decreases lines@.len() - i,
    {
        if same(lines[i].as_str(), line) {
            proof {
                assert(views(lines@)[i as int] == line@);
            }
            return true;
        }
        i += 1;
    }
    false
}

/// What a desktop entry says.
#[derive(Debug, PartialEq)]
pub struct DesktopEntry {
    pub name: String,
    pub command: String,
    pub icon: Option<String>,
}

/// Reads the text of a desktop entry file. The command line is as it stands in the file.
pub fn read_desktop_entry(content: &str) -> (r: Option<DesktopEntry>)
    ensures
        match r {
            Some(entry) => desktop_entry(content@) == Some(
                (DesktopEntryView {
                    name: entry.name@,
                    command: entry.command@,
                    icon: crate::ipc::text_view(entry.icon),
                }),
            ),
            None => desktop_entry(content@) is None,
        },
        ({
            let lines = entry_lines(lines_of(content@), false);
            r is Some <==> {
                &&& exists|i: int| 0 <= i < lines.len() && "Name="@.is_prefix_of(#[trigger] lines[i])
                &&& exists|i: int| 0 <= i < lines.len() && "Exec="@.is_prefix_of(#[trigger] lines[i])
                &&& exists|i: int|
                    0 <= i < lines.len() && #[trigger] lines[i] == "Type=Application"@ && forall|j: int|
                        i < j < lines.len() ==> !"Type="@.is_prefix_of(#[trigger] lines[j])
                &&& forall|i: int| 0 <= i < lines.len() ==> #[trigger] lines[i] != "NoDisplay=true"@
            }
        }),
{
    proof {
        law_listed_applications(content@);
    }
    let lines = section_lines(content);
    if has_line(&lines, "NoDisplay=true") {
        return None;
    }
    let is_application = match value_of_last(&lines, "Type=") {
        Some(kind) => same(kind.as_str(), "Application"),
        None => false,
    };
    if !is_application {
        return None;
    }
    let icon = value_of_first(&lines, "Icon=");
    match (value_of_first(&lines, "Name="), value_of_last(&lines, "Exec=")) {
        (Some(name), Some(command)) => Some(DesktopEntry { name, command, icon }),
        _ => None,
    }
}

/// Whether a file of this name is a desktop entry: its extension is `desktop`.
pub fn is_desktop_file(file_name: &str) -> (r: bool)
    ensures
        r == (has_suffix(file_name@, ".desktop"@) && file_name@.len() > ".desktop"@.len()),
{
    ends_with(file_name, ".desktop") && chars_of(file_name).len() > chars_of(".desktop").len()
}

/// The directories with the desktop entry files.
pub fn application_directories(home: Option<&str>) -> (r: Vec<String>)
    ensures
        views(r@) == seq![
            "/usr/share/applications"@,
            (match home {
                Some(h) => h@,
                None => ""@,
            }) + "/.local/share/applications"@,
        ],
{
    let mut own = match home {
        Some(h) => h.to_owned(),
        None => "".to_owned(),
    };
    own.append("/.local/share/applications");
    let mut r: Vec<String> = Vec::new();
    r.push("/usr/share/applications".to_owned());
    r.push(own);
    r
}

// ---------------------------------------------------------------------------
// Laws
// ---------------------------------------------------------------------------

/// The words that are dropped from a command are these thirteen and no others.
pub proof fn law_field_codes(word: Seq<char>)
    ensures
        is_field_code(word) <==> {
            ||| word == "%u"@
            ||| word == "%U"@
            ||| word == "%f"@
            ||| word == "%F"@
            ||| word == "%d"@
            ||| word == "%D"@
            ||| word == "%n"@
            ||| word == "%N"@
            ||| word == "%i"@
            ||| word == "%c"@
            ||| word == "%k"@
            ||| word == "%v"@
            ||| word == "%m"@
        },
{
    reveal_strlit("%u");
    reveal_strlit("%U");
    reveal_strlit("%f");
    reveal_strlit("%F");
    reveal_strlit("%d");
    reveal_strlit("%D");
    reveal_strlit("%n");
    reveal_strlit("%N");
    reveal_strlit("%i");
    reveal_strlit("%c");
    reveal_strlit("%k");
    reveal_strlit("%v");
    reveal_strlit("%m");
    let all = field_letters();
    assert(all[0] == 'u' && all[1] == 'U' && all[2] == 'f' && all[3] == 'F' && all[4] == 'd' && all[5]
        == 'D' && all[6] == 'n' && all[7] == 'N' && all[8] == 'i' && all[9] == 'c' && all[10] == 'k'
        && all[11] == 'v' && all[12] == 'm');
    if is_field_code(word) {
        let k = choose|k: int| 0 <= k < all.len() && all[k] == word[1];
        assert(word =~= seq!['%', all[k]]);
        assert(seq!['%', 'u'] =~= "%u"@);
        assert(seq!['%', 'U'] =~= "%U"@);
        assert(seq!['%', 'f'] =~= "%f"@);
        assert(seq!['%', 'F'] =~= "%F"@);
        assert(seq!['%', 'd'] =~= "%d"@);
        assert(seq!['%', 'D'] =~= "%D"@);
        assert(seq!['%', 'n'] =~= "%n"@);
        assert(seq!['%', 'N'] =~= "%N"@);
        assert(seq!['%', 'i'] =~= "%i"@);
        assert(seq!['%', 'c'] =~= "%c"@);
        assert(seq!['%', 'k'] =~= "%k"@);
        assert(seq!['%', 'v'] =~= "%v"@);
        assert(seq!['%', 'm'] =~= "%m"@);
    }
}

/// Each word of a command stands for itself: the plain words of two parts are those of the one
/// followed by those of the other, and a single word stays or goes as a whole.
pub proof fn law_plain_words_of_two_parts(a: Seq<Seq<char>>, b: Seq<Seq<char>>, word: Seq<char>)
    ensures
        plain_words(a + b) == plain_words(a) + plain_words(b),
        plain_words(seq![word]) == (if is_field_code(word) {
            Seq::empty()
        } else {
            seq![word]
        }),
    decreases b.len(),
{
    let p = |w: Seq<char>| !is_field_code(w);
    let one = seq![word];
    assert(one.drop_last() =~= Seq::empty());
    assert(kept(one.drop_last(), p) =~= Seq::empty());
    assert(one.last() == word);
    assert(plain_words(one) =~= (if is_field_code(word) {
        Seq::empty()
    } else {
        seq![word]
    }));
    if b.len() == 0 {
        assert(a + b =~= a);
        assert(plain_words(a) + plain_words(b) =~= plain_words(a));
    } else {
        law_plain_words_of_two_parts(a, b.drop_last(), word);
        assert((a + b).drop_last() =~= a + b.drop_last());
        assert((a + b).last() == b.last());
        assert(plain_words(a + b) =~= plain_words(a) + plain_words(b));
    }
}

/// A section header decides about the lines after it: those after the header of a desktop entry count,
/// without the white space around them, and those after any other header do not.
pub proof fn law_sections(before: Seq<Seq<char>>, header: Seq<char>, after: Seq<Seq<char>>, inside: bool)
    requires
        trimmed(header).len() > 0,
        trimmed(header)[0] == '[',
        forall|i: int|
            0 <= i < after.len() ==> trimmed(#[trigger] after[i]).len() == 0 || trimmed(after[i])[0]
                != '[',
    ensures
        entry_lines(before + seq![header] + after, inside) == entry_lines(before, inside) + (if trimmed(
            header,
        ) == "[Desktop Entry]"@ {
            Seq::new(after.len(), |i: int| trimmed(after[i]))
        } else {
            Seq::empty()
        }),
    decreases before.len(),
{
    reveal_strlit("[");
    assert(trimmed(header).subrange(0, 1) =~= "["@);
    if before.len() == 0 {
        let all = before + seq![header] + after;
        assert(all[0] == header);
        assert(all.drop_first() =~= after);
        lemma_plain_section(after, trimmed(header) == "[Desktop Entry]"@);
        assert(entry_lines(before, inside) =~= Seq::empty());
        assert(entry_lines(all, inside) == entry_lines(after, trimmed(header) == "[Desktop Entry]"@));
        if trimmed(header) == "[Desktop Entry]"@ {
            assert(Seq::<Seq<char>>::empty() + Seq::new(after.len(), |i: int| trimmed(after[i]))
                =~= Seq::new(after.len(), |i: int| trimmed(after[i])));
        } else {
            assert(Seq::<Seq<char>>::empty() + Seq::<Seq<char>>::empty() =~= Seq::empty());
        }
    } else {
        let all = before + seq![header] + after;
        let line = trimmed(before[0]);
        assert(all[0] == before[0]);
        assert(all.drop_first() =~= before.drop_first() + seq![header] + after);
        let next = if has_prefix(line, "["@) {
            line == "[Desktop Entry]"@
        } else {
            inside
        };
        law_sections(before.drop_first(), header, after, next);
        let tail = if trimmed(header) == "[Desktop Entry]"@ {
            Seq::new(after.len(), |i: int| trimmed(after[i]))
        } else {
            Seq::empty()
        };
        assert(entry_lines(all, inside) =~= entry_lines(before, inside) + tail);
    }
}

proof fn lemma_plain_section(lines: Seq<Seq<char>>, inside: bool)
    requires
        forall|i: int|
            0 <= i < lines.len() ==> trimmed(#[trigger] lines[i]).len() == 0 || trimmed(lines[i])[0]
                != '[',
    ensures
        entry_lines(lines, inside) == (if inside {
            Seq::new(lines.len(), |i: int| trimmed(lines[i]))
        } else {
            Seq::empty()
        }),
    decreases lines.len(),
{
    reveal_strlit("[");
    let expected = if inside {
        Seq::new(lines.len(), |i: int| trimmed(lines[i]))
    } else {
        Seq::empty()
    };
    if lines.len() > 0 {
        let line = trimmed(lines[0]);
        if has_prefix(line, "["@) {
            assert(line.subrange(0, 1)[0] == '[');
        }
        assert forall|i: int| 0 <= i < lines.drop_first().len() implies trimmed(
            #[trigger] lines.drop_first()[i],
        ).len() == 0 || trimmed(lines.drop_first()[i])[0] != '[' by {
            assert(lines.drop_first()[i] == lines[i + 1]);
        }
        lemma_plain_section(lines.drop_first(), inside);
    }
    assert(entry_lines(lines, inside) =~= expected);
}

/// The first line that starts with a key gives its value: what follows the key.
pub proof fn law_first_value(lines: Seq<Seq<char>>, key: Seq<char>)
    ensures
        match first_value(lines, key) {
            Some(value) => exists|i: int|
                0 <= i < lines.len() && #[trigger] lines[i] == key + value && forall|j: int|
                    0 <= j < i ==> !key.is_prefix_of(#[trigger] lines[j]),
            None => forall|j: int| 0 <= j < lines.len() ==> !key.is_prefix_of(#[trigger] lines[j]),
        },
    decreases lines.len(),
{
    if lines.len() > 0 {
        lemma_prefix(lines[0], key);
        if has_prefix(lines[0], key) {
            assert(lines[0] =~= key + lines[0].skip(key.len() as int));
        } else {
            let rest = lines.drop_first();
            law_first_value(rest, key);
            match first_value(rest, key) {
                Some(value) => {
                    let i = choose|i: int|
                        0 <= i < rest.len() && #[trigger] rest[i] == key + value && forall|j: int|
                            0 <= j < i ==> !key.is_prefix_of(#[trigger] rest[j]);
                    assert(lines[i + 1] == key + value);
                    assert forall|j: int| 0 <= j < i + 1 implies !key.is_prefix_of(
                        #[trigger] lines[j],
                    ) by {
                        if j > 0 {
                            assert(rest[j - 1] == lines[j]);
                        }
                    }
                },
                None => {
                    assert forall|j: int| 0 <= j < lines.len() implies !key.is_prefix_of(
                        #[trigger] lines[j],
                    ) by {
                        if j > 0 {
                            assert(rest[j - 1] == lines[j]);
                        }
                    }
                },
            }
        }
    }
}

/// The last line that starts with a key gives its value: what follows the key.
pub proof fn law_last_value(lines: Seq<Seq<char>>, key: Seq<char>)
    ensures
        match last_value(lines, key) {
            Some(value) => exists|i: int|
                0 <= i < lines.len() && #[trigger] lines[i] == key + value && forall|j: int|
                    i < j < lines.len() ==> !key.is_prefix_of(#[trigger] lines[j]),
            None => forall|j: int| 0 <= j < lines.len() ==> !key.is_prefix_of(#[trigger] lines[j]),
        },
    decreases lines.len(),
{
    if lines.len() > 0 {
        let n = lines.len() - 1;
        lemma_prefix(lines[n], key);
        if has_prefix(lines.last(), key) {
            assert(lines[n] =~= key + lines[n].skip(key.len() as int));
        } else {
            let rest = lines.drop_last();
            law_last_value(rest, key);
            match last_value(rest, key) {
                Some(value) => {
                    let i = choose|i: int|
                        0 <= i < rest.len() && #[trigger] rest[i] == key + value && forall|j: int|
                            i < j < rest.len() ==> !key.is_prefix_of(#[trigger] rest[j]);
                    assert(lines[i] == key + value);
                    assert forall|j: int| i < j < lines.len() implies !key.is_prefix_of(
                        #[trigger] lines[j],
                    ) by {
                        if j < n {
                            assert(rest[j] == lines[j]);
                        }
                    }
                },
                None => {
                    assert forall|j: int| 0 <= j < lines.len() implies !key.is_prefix_of(
                        #[trigger] lines[j],
                    ) by {
                        if j < n {
                            assert(rest[j] == lines[j]);
                        }
                    }
                },
            }
        }
    }
}

proof fn lemma_prefix(s: Seq<char>, p: Seq<char>)
    ensures
        has_prefix(s, p) == p.is_prefix_of(s),
{
    if has_prefix(s, p) {
        assert(p =~= s.subrange(0, p.len() as int));
    }
}

/// An application is listed exactly if the lines of its desktop entry name it and its command, say as
/// the last word on the type that it is an application, and none of them is `NoDisplay=true`. Its name
/// and its icon are the first that are given, its command line is the last.
pub proof fn law_listed_applications(content: Seq<char>)
    ensures
        ({
            let lines = entry_lines(lines_of(content), false);
            &&& desktop_entry(content) is Some <==> {
                &&& exists|i: int| 0 <= i < lines.len() && "Name="@.is_prefix_of(#[trigger] lines[i])
                &&& exists|i: int| 0 <= i < lines.len() && "Exec="@.is_prefix_of(#[trigger] lines[i])
                &&& exists|i: int|
                    0 <= i < lines.len() && #[trigger] lines[i] == "Type=Application"@ && forall|j: int|
                        i < j < lines.len() ==> !"Type="@.is_prefix_of(#[trigger] lines[j])
                &&& forall|i: int| 0 <= i < lines.len() ==> #[trigger] lines[i] != "NoDisplay=true"@
            }
            &&& desktop_entry(content) matches Some(entry) ==> {
                &&& exists|i: int|
                    0 <= i < lines.len() && #[trigger] lines[i] == "Name="@ + entry.name && forall|j: int|
                        0 <= j < i ==> !"Name="@.is_prefix_of(#[trigger] lines[j])
                &&& exists|i: int|
                    0 <= i < lines.len() && #[trigger] lines[i] == "Exec="@ + entry.command
                        && forall|j: int|
                        i < j < lines.len() ==> !"Exec="@.is_prefix_of(#[trigger] lines[j])
                &&& match entry.icon {
                    Some(icon) => exists|i: int|
                        0 <= i < lines.len() && #[trigger] lines[i] == "Icon="@ + icon && forall|j: int|
                            0 <= j < i ==> !"Icon="@.is_prefix_of(#[trigger] lines[j]),
                    None => forall|j: int|
                        0 <= j < lines.len() ==> !"Icon="@.is_prefix_of(#[trigger] lines[j]),
                }
            }
        }),
{
    let lines = entry_lines(lines_of(content), false);
    law_first_value(lines, "Name="@);
    law_first_value(lines, "Icon="@);
    law_last_value(lines, "Exec="@);
    law_last_value(lines, "Type="@);
    lemma_given(lines, "Name="@);
    lemma_given(lines, "Exec="@);
    reveal_strlit("Type=");
    reveal_strlit("Application");
    reveal_strlit("Type=Application");
    assert("Type="@ + "Application"@ =~= "Type=Application"@);
    assert("Type="@.is_prefix_of("Type=Application"@));
    if let Some(value) = last_value(lines, "Type="@) {
        let k = choose|i: int|
            0 <= i < lines.len() && #[trigger] lines[i] == "Type="@ + value && forall|j: int|
                i < j < lines.len() ==> !"Type="@.is_prefix_of(#[trigger] lines[j]);
        assert("Type="@.is_prefix_of(lines[k]));
        if value == "Application"@ {
            assert(lines[k] == "Type=Application"@);
        }
        if exists|i: int|
            0 <= i < lines.len() && #[trigger] lines[i] == "Type=Application"@ && forall|j: int|
                i < j < lines.len() ==> !"Type="@.is_prefix_of(#[trigger] lines[j]) {
            let m = choose|i: int|
                0 <= i < lines.len() && #[trigger] lines[i] == "Type=Application"@ && forall|j: int|
                    i < j < lines.len() ==> !"Type="@.is_prefix_of(#[trigger] lines[j]);
            assert("Type="@.is_prefix_of(lines[m]));
            assert(k == m);
            assert(value =~= ("Type="@ + value).skip(5));
            assert("Application"@ =~= ("Type="@ + "Application"@).skip(5));
        }
    }
    if lines.contains("NoDisplay=true"@) {
        let i = choose|i: int| 0 <= i < lines.len() && lines[i] == "NoDisplay=true"@;
        assert(lines[i] == "NoDisplay=true"@);
    }
}

proof fn lemma_given(lines: Seq<Seq<char>>, key: Seq<char>)
    ensures
        first_value(lines, key) is Some <==> exists|i: int|
            0 <= i < lines.len() && key.is_prefix_of(#[trigger] lines[i]),
        last_value(lines, key) is Some <==> exists|i: int|
            0 <= i < lines.len() && key.is_prefix_of(#[trigger] lines[i]),
{
    law_first_value(lines, key);
    law_last_value(lines, key);
    if let Some(value) = first_value(lines, key) {
        let i = choose|i: int|
            0 <= i < lines.len() && #[trigger] lines[i] == key + value && forall|j: int|
                0 <= j < i ==> !key.is_prefix_of(#[trigger] lines[j]);
        assert(key.is_prefix_of(lines[i]));
    }
    if let Some(value) = last_value(lines, key) {
        let i = choose|i: int|
            0 <= i < lines.len() && #[trigger] lines[i] == key + value && forall|j: int|
                i < j < lines.len() ==> !key.is_prefix_of(#[trigger] lines[j]);
        assert(key.is_prefix_of(lines[i]));
    }
}

proof fn lemma_first_skips(before: Seq<Seq<char>>, line: Seq<char>, after: Seq<Seq<char>>, key: Seq<char>)
    requires
        !key.is_prefix_of(line),
    ensures
        first_value(before + seq![line] + after, key) == first_value(before + after, key),
    decreases before.len(),
{
    let all = before + seq![line] + after;
    if before.len() == 0 {
        lemma_prefix(line, key);
        assert(all[0] == line);
        assert(all.drop_first() =~= before + after);
    } else {
        assert(all[0] == before[0] && (before + after)[0] == before[0]);
        assert(all.drop_first() =~= before.drop_first() + seq![line] + after);
        assert((before + after).drop_first() =~= before.drop_first() + after);
        lemma_first_skips(before.drop_first(), line, after, key);
    }
}

proof fn lemma_last_skips(before: Seq<Seq<char>>, line: Seq<char>, after: Seq<Seq<char>>, key: Seq<char>)
    requires
        !key.is_prefix_of(line),
    ensures
        last_value(before + seq![line] + after, key) == last_value(before + after, key),
    decreases after.len(),
{
    let all = before + seq![line] + after;
    if after.len() == 0 {
        lemma_prefix(line, key);
        assert(all.last() == line);
        assert(all.drop_last() =~= before + after);
    } else {
        assert(all.last() == after.last() && (before + after).last() == after.last());
        assert(all.drop_last() =~= before + seq![line] + after.drop_last());
        assert((before + after).drop_last() =~= before + after.drop_last());
        lemma_last_skips(before, line, after.drop_last(), key);
    }
}

/// A line that is none of those that count changes nothing, wherever it stands: only `NoDisplay=true`
/// hides an application, so `NoDisplay=false` does not.
pub proof fn law_other_lines_do_not_count(
    before: Seq<Seq<char>>,
    line: Seq<char>,
    after: Seq<Seq<char>>,
)
    requires
        line != "NoDisplay=true"@,
        !"Name="@.is_prefix_of(line),
        !"Exec="@.is_prefix_of(line),
        !"Icon="@.is_prefix_of(line),
        !"Type="@.is_prefix_of(line),
    ensures
        described(before + seq![line] + after) == described(before + after),
{
    let all = before + seq![line] + after;
    let rest = before + after;
    lemma_first_skips(before, line, after, "Name="@);
    lemma_first_skips(before, line, after, "Icon="@);
    lemma_last_skips(before, line, after, "Exec="@);
    lemma_last_skips(before, line, after, "Type="@);
    let hidden = "NoDisplay=true"@;
    if all.contains(hidden) {
        let i = choose|i: int| 0 <= i < all.len() && all[i] == hidden;
        if i < before.len() {
            assert(rest[i] == hidden);
        } else {
            assert(rest[i - 1] == hidden);
        }
    }
    if rest.contains(hidden) {
        let i = choose|i: int| 0 <= i < rest.len() && rest[i] == hidden;
        if i < before.len() {
            assert(all[i] == hidden);
        } else {
            assert(all[i + 1] == hidden);
        }
    }
}

} // verus!
