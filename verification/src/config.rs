//! The configuration file model: an ordered sequence of text lines, each kept
//! verbatim, with a single targeted edit operation that rewrites the value of
//! the first line binding a given key and appends a fresh line when no line
//! binds it.

use vstd::prelude::*;

use crate::text::first_index_of;
use crate::text::first_non_space;
use crate::text::lemma_first_index_of;
use crate::text::lemma_first_non_space;
use crate::text::trim_spec;
use crate::text::find_char_idx;
use crate::text::first_non_space_idx;
use crate::text::str_eq;
use crate::text::trim_str;

verus! {

/// Index of the first `=` on the line, or the line's length when it has none.
pub open spec fn first_eq(line: Seq<char>) -> int {
    first_index_of(line, '=')
}

/// True when the line holds an `=` at all.
pub open spec fn has_eq(line: Seq<char>) -> bool {
    first_eq(line) < line.len()
}

/// An active line is one that is neither blank nor a comment: its first
/// non-whitespace character exists and is not `#`.
pub open spec fn is_active(line: Seq<char>) -> bool {
    first_non_space(line) < line.len() && line[first_non_space(line)] != '#'
}

/// The key a line binds: the text before its first `=`, with surrounding
/// whitespace removed.
pub open spec fn line_key(line: Seq<char>) -> Seq<char> {
    trim_spec(line.take(first_eq(line)))
}

/// True when the line is an active `key = value` binding for exactly `key`.
pub open spec fn line_matches(line: Seq<char>, key: Seq<char>) -> bool {
    is_active(line) && has_eq(line) && line_key(line) == key
}

/// The line rewritten with a new value: everything up to and including the
/// first `=` is kept (indentation and spacing before the `=` included),
/// followed by one space, the value, and a newline.
pub open spec fn updated_line(line: Seq<char>, value: Seq<char>) -> Seq<char>
    recommends
        has_eq(line),
{
    line.take(first_eq(line) + 1) + seq![' '] + value + seq!['\n']
}

/// The line appended for a key that no existing line binds.
pub open spec fn default_line(key: Seq<char>, value: Seq<char>) -> Seq<char> {
    key + seq![' ', '=', ' '] + value + seq!['\n']
}

/// Index of the first line binding `key`, or `lines.len()` when none does.
pub open spec fn first_match(lines: Seq<Seq<char>>, key: Seq<char>) -> int
    decreases lines.len(),
{
    if lines.len() == 0 {
        0
    } else if line_matches(lines[0], key) {
        0
    } else {
        1 + first_match(lines.drop_first(), key)
    }
}

/// True when some line binds `key`.
pub open spec fn has_match(lines: Seq<Seq<char>>, key: Seq<char>) -> bool {
    first_match(lines, key) < lines.len()
}

/// The whole file after one update: the first line binding `key` is rewritten
/// in place, or a fresh binding is appended when no line binds `key`. Every
/// other line is kept byte for byte.
pub open spec fn updated_lines(
    lines: Seq<Seq<char>>,
    key: Seq<char>,
    value: Seq<char>,
) -> Seq<Seq<char>> {
    if has_match(lines, key) {
        lines.update(first_match(lines, key), updated_line(lines[first_match(lines, key)], value))
    } else {
        lines.push(default_line(key, value))
    }
}

/// `first_match` is the least index whose line binds `key`.
pub proof fn lemma_first_match(lines: Seq<Seq<char>>, key: Seq<char>)
    ensures
        0 <= first_match(lines, key) <= lines.len(),
        forall|j: int|
            0 <= j < first_match(lines, key) ==> !line_matches(#[trigger] lines[j], key),
        has_match(lines, key) ==> line_matches(lines[first_match(lines, key)], key),
    decreases lines.len(),
{
    if lines.len() > 0 && !line_matches(lines[0], key) {
        lemma_first_match(lines.drop_first(), key);
        assert forall|j: int|
            0 <= j < first_match(lines, key) implies !line_matches(#[trigger] lines[j], key) by {
            if j > 0 {
                assert(lines.drop_first()[j - 1] == lines[j]);
            }
        }
        if has_match(lines, key) {
            assert(lines.drop_first()[first_match(lines.drop_first(), key)] == lines[first_match(
                lines,
                key,
            )]);
        }
    }
}

/// Does this line bind `key`? On a match, the returned index is that of the
/// line's first `=`.
pub fn match_line(line: &str, key: &str) -> (r: Option<usize>)
    ensures
        match r {
            Some(e) => line_matches(line@, key@) && e == first_eq(line@),
            None => !line_matches(line@, key@),
        },
{
    let n = line.unicode_len();
    let start = first_non_space_idx(line);
    proof {
        lemma_first_non_space(line@);
    }
    if start == n {
        return None;
    }
    if line.get_char(start) == '#' {
        return None;
    }
    let e = find_char_idx(line, '=');
    if e == n {
        return None;
    }
    proof {
        lemma_first_index_of(line@, '=');
    }
    let prefix = line.substring_char(0, e);
    let trimmed = trim_str(prefix);
    proof {
        assert(line@.take(first_eq(line@)) =~= prefix@);
    }
    if str_eq(trimmed, key) {
        Some(e)
    } else {
        None
    }
}

/// Rewrite the value of the first active line binding `key`, keeping every
/// character before that line's first `=` and every other line untouched;
/// when no line binds `key`, append `key = value` as a new final line.
pub fn update_config_line(lines: &mut Vec<String>, key: &str, value: &str)
    ensures
        final(lines).deep_view() == updated_lines(old(lines).deep_view(), key@, value@),
{
    let ghost orig = lines.deep_view();
    let n = lines.len();
    let mut i: usize = 0;
    while i < n
        invariant
            0 <= i <= n,
            n == lines@.len(),
            lines.deep_view() == orig,
            orig == old(lines).deep_view(),
            forall|j: int| 0 <= j < i ==> !line_matches(#[trigger] orig[j], key@),
        decreases n - i,
    {
        proof {
            assert(orig[i as int] == lines@[i as int]@);
        }
        let r = match_line(lines[i].as_str(), key);
        match r {
            Some(e) => {
                let llen = lines[i].as_str().unicode_len();
                proof {
                    lemma_first_index_of(lines@[i as int]@, '=');
                    assert(e < llen);
                }
                let mut new_line = String::from_str(lines[i].as_str().substring_char(0, e + 1));
                new_line.append(" ");
                new_line.append(value);
                new_line.append("\n");
                lines[i] = new_line;
                proof {
                    reveal_strlit(" ");
                    reveal_strlit("\n");
                    lemma_first_match(orig, key@);
                    assert(first_match(orig, key@) == i) by {
                        if first_match(orig, key@) < i {
                            assert(line_matches(orig[first_match(orig, key@)], key@));
                        }
                        if first_match(orig, key@) > i {
                            assert(!line_matches(orig[i as int], key@));
                        }
                    }
                    assert(" "@ =~= seq![' ']);
                    assert("\n"@ =~= seq!['\n']);
                    assert(new_line@ =~= updated_line(orig[i as int], value@));
                    assert(lines.deep_view() =~~= updated_lines(orig, key@, value@));
                }
                return;
            },
            None => {
                i = i + 1;
            },
        }
    }
    let mut new_line = key.to_owned();
    new_line.append(" = ");
    new_line.append(value);
    new_line.append("\n");
    lines.push(new_line);
    proof {
        reveal_strlit(" = ");
        reveal_strlit("\n");
        lemma_first_match(orig, key@);
        assert(!has_match(orig, key@)) by {
            if has_match(orig, key@) {
                assert(line_matches(orig[first_match(orig, key@)], key@));
            }
        }
        assert(" = "@ =~= seq![' ', '=', ' ']);
        assert(new_line@ =~= default_line(key@, value@));
        assert(lines.deep_view() =~~= updated_lines(orig, key@, value@));
    }
}

/// Index of the first newline in the text, or its length when it has none.
pub open spec fn first_nl(s: Seq<char>) -> int {
    first_index_of(s, '\n')
}

/// The text with a single trailing carriage return removed, if one is there.
pub open spec fn chomp_cr(s: Seq<char>) -> Seq<char> {
    if s.len() > 0 && s.last() == '\r' {
        s.drop_last()
    } else {
        s
    }
}

/// A file's text cut into lines: the text is split at each newline, a
/// carriage return standing right before a newline is dropped, and every
/// line is given a trailing newline, the last line included even when the
/// text did not end with one.
pub open spec fn split_lines(s: Seq<char>) -> Seq<Seq<char>>
    decreases s.len(),
{
    if s.len() == 0 {
        Seq::empty()
    } else if 0 <= first_nl(s) < s.len() {
        seq![chomp_cr(s.take(first_nl(s))).push('\n')] + split_lines(s.skip(first_nl(s) + 1))
    } else {
        seq![s.push('\n')]
    }
}

/// All lines joined back into one text, in order, with nothing added or
/// dropped between them.
pub open spec fn joined(lines: Seq<Seq<char>>) -> Seq<char>
    decreases lines.len(),
{
    if lines.len() == 0 {
        Seq::empty()
    } else {
        lines[0] + joined(lines.drop_first())
    }
}

/// Joining one more line extends the joined text by exactly that line.
pub proof fn lemma_joined_snoc(lines: Seq<Seq<char>>, i: int)
    requires
        0 <= i < lines.len(),
    ensures
        joined(lines.take(i + 1)) == joined(lines.take(i)) + lines[i],
    decreases i,
{
    if i == 0 {
        assert(lines.take(1).drop_first() =~= Seq::<Seq<char>>::empty());
        assert(lines.take(0) =~= Seq::<Seq<char>>::empty());
        assert(lines.take(1)[0] == lines[0]);
        assert(joined(lines.take(1)) =~= joined(lines.take(0)) + lines[0]);
    } else {
        let d = lines.drop_first();
        lemma_joined_snoc(d, i - 1);
        assert(lines.take(i + 1).drop_first() =~= d.take(i));
        assert(lines.take(i).drop_first() =~= d.take(i - 1));
        assert(lines.take(i + 1)[0] == lines[0]);
        assert(lines.take(i)[0] == lines[0]);
        assert(d[i - 1] == lines[i]);
        assert(lines[0] + (joined(d.take(i - 1)) + d[i - 1]) =~= (lines[0] + joined(
            d.take(i - 1),
        )) + d[i - 1]);
    }
}

/// Cut a file's text into its line sequence; this is the computing half of
/// reading the configuration file, once its text is in memory.
pub fn lines_of_content(content: &str) -> (lines: Vec<String>)
    ensures
        lines.deep_view() == split_lines(content@),
    decreases content@.len(),
{
    let n = content.unicode_len();
    if n == 0 {
        let r: Vec<String> = Vec::new();
        proof {
            assert(r.deep_view() =~~= split_lines(content@));
        }
        return r;
    }
    let e = find_char_idx(content, '\n');
    proof {
        lemma_first_index_of(content@, '\n');
    }
    if e < n {
        let cut = if e > 0 && content.get_char(e - 1) == '\r' {
            e - 1
        } else {
            e
        };
        let mut line = String::from_str(content.substring_char(0, cut));
        line.append("\n");
        let rest = content.substring_char(e + 1, n);
        let mut rest_lines = lines_of_content(rest);
        let mut result: Vec<String> = Vec::new();
        result.push(line);
        result.append(&mut rest_lines);
        proof {
            reveal_strlit("\n");
            assert("\n"@ =~= seq!['\n']);
            assert(line@ =~= chomp_cr(content@.take(e as int)).push('\n'));
            assert(result.deep_view() =~~= split_lines(content@));
        }
        result
    } else {
        let mut line = String::from_str(content);
        line.append("\n");
        let mut result: Vec<String> = Vec::new();
        result.push(line);
        proof {
            reveal_strlit("\n");
            assert("\n"@ =~= seq!['\n']);
            assert(line@ =~= content@.push('\n'));
            assert(result.deep_view() =~~= split_lines(content@));
        }
        result
    }
}

/// Join the line sequence back into one text; this is the computing half of
/// writing the configuration file.
pub fn content_of_lines(lines: &Vec<String>) -> (content: String)
    ensures
        content@ == joined(lines.deep_view()),
{
    let mut content = String::new();
    let n = lines.len();
    let mut i: usize = 0;
    proof {
        assert(lines.deep_view().take(0) =~= Seq::<Seq<char>>::empty());
    }
    while i < n
        invariant
            0 <= i <= n,
            n == lines@.len(),
            content@ == joined(lines.deep_view().take(i as int)),
        decreases n - i,
    {
        content.append(lines[i].as_str());
        proof {
            lemma_joined_snoc(lines.deep_view(), i as int);
            assert(lines.deep_view()[i as int] == lines@[i as int]@);
        }
        i = i + 1;
    }
    proof {
        assert(lines.deep_view().take(n as int) =~= lines.deep_view());
    }
    content
}

/// Cutting a text into lines and joining them again reproduces it byte for
/// byte, provided the text already ends in a newline and uses bare newline
/// line endings.
pub proof fn lemma_split_join_round_trip(content: Seq<char>)
    requires
        content.len() > 0 ==> content.last() == '\n',
        forall|i: int|
            0 < i < content.len() && #[trigger] content[i] == '\n' ==> content[i - 1] != '\r',
    ensures
        joined(split_lines(content)) == content,
    decreases content.len(),
{
    if content.len() > 0 {
        let e = first_nl(content);
        lemma_first_index_of(content, '\n');
        assert(e < content.len()) by {
            if e == content.len() {
                assert(content[content.len() - 1] != '\n');
            }
        }
        assert(chomp_cr(content.take(e)) =~= content.take(e)) by {
            if e > 0 {
                assert(content[e] == '\n');
                assert(content[e - 1] != '\r');
                assert(content.take(e).last() == content[e - 1]);
            }
        }
        let rest = content.skip(e + 1);
        assert forall|i: int|
            0 < i < rest.len() && #[trigger] rest[i] == '\n' implies rest[i - 1] != '\r' by {
            assert(content[i + e + 1] == rest[i]);
            assert(content[i + e] == rest[i - 1]);
        }
        if rest.len() > 0 {
            assert(rest.last() == content.last());
        }
        lemma_split_join_round_trip(rest);
        let head = content.take(e).push('\n');
        assert(split_lines(content) == seq![head] + split_lines(rest));
        assert((seq![head] + split_lines(rest)).drop_first() =~= split_lines(rest));
        assert((seq![head] + split_lines(rest))[0] == head);
        assert(head + rest =~= content);
    }
}

/// A key bound by some line is rewritten exactly at its first occurrence:
/// that one line takes its new value and every other line of the file is
/// kept byte for byte.
pub proof fn lemma_update_first_occurrence(
    lines: Seq<Seq<char>>,
    key: Seq<char>,
    value: Seq<char>,
    j: int,
)
    requires
        0 <= j < lines.len(),
        line_matches(lines[j], key),
        forall|i: int| 0 <= i < j ==> !line_matches(#[trigger] lines[i], key),
    ensures
        updated_lines(lines, key, value) == lines.update(j, updated_line(lines[j], value)),
        updated_lines(lines, key, value).len() == lines.len(),
        updated_lines(lines, key, value)[j] == updated_line(lines[j], value),
        forall|i: int|
            0 <= i < lines.len() && i != j ==> #[trigger] updated_lines(lines, key, value)[i]
                == lines[i],
{
    lemma_first_match(lines, key);
    assert(first_match(lines, key) == j) by {
        if first_match(lines, key) < j {
            assert(line_matches(lines[first_match(lines, key)], key));
        }
        if first_match(lines, key) > j {
            assert(!line_matches(lines[j], key));
        }
    }
}

/// When no line binds the key, the update appends exactly one fresh binding
/// at the end and leaves every existing line unchanged and in order.
pub proof fn lemma_update_absent_key_appends(lines: Seq<Seq<char>>, key: Seq<char>, value: Seq<char>)
    requires
        forall|i: int| 0 <= i < lines.len() ==> !line_matches(#[trigger] lines[i], key),
    ensures
        updated_lines(lines, key, value) == lines.push(default_line(key, value)),
        updated_lines(lines, key, value).len() == lines.len() + 1,
        forall|i: int|
            0 <= i < lines.len() ==> #[trigger] updated_lines(lines, key, value)[i] == lines[i],
{
    lemma_first_match(lines, key);
    assert(!has_match(lines, key)) by {
        if has_match(lines, key) {
            assert(line_matches(lines[first_match(lines, key)], key));
        }
    }
}

/// When a key is bound by two lines, only the earlier binding changes; the
/// later one is left untouched.
pub proof fn lemma_update_duplicate_key(
    lines: Seq<Seq<char>>,
    key: Seq<char>,
    value: Seq<char>,
    j: int,
    k: int,
)
    requires
        0 <= j < k < lines.len(),
        line_matches(lines[j], key),
        line_matches(lines[k], key),
    ensures
        updated_lines(lines, key, value).len() == lines.len(),
        updated_lines(lines, key, value)[k] == lines[k],
        first_match(lines, key) <= j,
{
    lemma_first_match(lines, key);
    assert(first_match(lines, key) <= j) by {
        if first_match(lines, key) > j {
            assert(!line_matches(lines[j], key));
        }
    }
}

/// A blank line or a comment line never matches any key, and no update ever
/// alters it.
pub proof fn lemma_inactive_line_untouched(
    lines: Seq<Seq<char>>,
    key: Seq<char>,
    value: Seq<char>,
    i: int,
)
    requires
        0 <= i < lines.len(),
        !is_active(lines[i]),
    ensures
        !line_matches(lines[i], key),
        updated_lines(lines, key, value)[i] == lines[i],
{
    lemma_first_match(lines, key);
    if has_match(lines, key) {
        assert(line_matches(lines[first_match(lines, key)], key));
    }
}

} // verus!
