//! `KEY=value` files: comments, blank lines, and quoted values.
use vstd::prelude::*;

use crate::text::{
    chars_of, find_char_from, find_first, lemma_find_first, split_every, split_first,
    string_of_chars, trim, trim_str,
};
use crate::url::str_eq;

verus! {

/// The entries of an env file, in file order.
pub type EnvEntries = Vec<(String, String)>;

/// A value without one pair of matching surrounding quotes, single or
/// double.
pub open spec fn unquote(v: Seq<char>) -> Seq<char> {
    if v.len() >= 2 && ((v[0] == '"' && v.last() == '"') || (v[0] == '\'' && v.last() == '\'')) {
        v.subrange(1, v.len() - 1)
    } else {
        v
    }
}

/// The entry of one line: none for a blank line, a comment or a line
/// without `=`; otherwise the trimmed key and the trimmed, unquoted value.
pub open spec fn env_entry(line: Seq<char>) -> Seq<(Seq<char>, Seq<char>)> {
    let t = trim(line);
    if t.len() == 0 || t[0] == '#' {
        Seq::empty()
    } else {
        match split_first(t, '=') {
            None => Seq::empty(),
            Some((k, v)) => seq![(trim(k), unquote(trim(v)))],
        }
    }
}

/// The entries of the lines, in order.
pub open spec fn env_entries(lines: Seq<Seq<char>>) -> Seq<(Seq<char>, Seq<char>)>
    decreases lines.len(),
{
    if lines.len() == 0 {
        Seq::empty()
    } else {
        env_entries(lines.drop_last()) + env_entry(lines.last())
    }
}

/// The entries of an env file. Its lines are the pieces between line
/// feeds; a carriage return before a line feed is white space that the
/// trimming drops, and the empty piece after a final line feed has no
/// entry.
pub open spec fn parse_env_spec(contents: Seq<char>) -> Seq<(Seq<char>, Seq<char>)> {
    env_entries(split_every(contents, '\n'))
}

/// The views of a list of entries.
pub open spec fn entries_view(entries: Seq<(String, String)>) -> Seq<(Seq<char>, Seq<char>)> {
    entries.map_values(|e: (String, String)| (e.0@, e.1@))
}

fn unquote_env_value(value: &str) -> (r: String)
    ensures
        r@ == unquote(value@),
{
    let v = chars_of(value);
    let n = v.len();
    if n >= 2 && ((v[0] == '"' && v[n - 1] == '"') || (v[0] == '\'' && v[n - 1] == '\'')) {
        string_of_chars(&v, 1, n - 1)
    } else {
        value.to_owned()
    }
}

fn line_entry(line: &str) -> (r: Option<(String, String)>)
    ensures
        match r {
            Some(e) => env_entry(line@) == seq![(e.0@, e.1@)],
            None => env_entry(line@) == Seq::<(Seq<char>, Seq<char>)>::empty(),
        },
{
    let trimmed = trim_str(line);
    let t = chars_of(trimmed.as_str());
    if t.len() == 0 || t[0] == '#' {
        return None;
    }
    assert(t@.skip(0) =~= t@);
    let n = t.len();
    let eq = match find_char_from(&t, 0, '=') {
        None => return None,
        Some(i) => i,
    };
    let key = string_of_chars(&t, 0, eq);
    let value = string_of_chars(&t, eq + 1, n);
    proof {
        lemma_find_first(t@, '=');
        assert(key@ =~= t@.take(eq as int));
        assert(value@ =~= t@.skip(eq + 1));
    }
    let key = trim_str(key.as_str());
    let value = trim_str(value.as_str());
    Some((key, unquote_env_value(value.as_str())))
}

/// The entries of an env file, in file order.
pub fn parse_env(contents: &str) -> (r: EnvEntries)
    ensures
        entries_view(r@) == parse_env_spec(contents@),
{
    let v = chars_of(contents);
    let n = v.len();
    let mut out: Vec<(String, String)> = Vec::new();
    let mut start: usize = 0;
    let ghost mut done: Seq<Seq<char>> = Seq::empty();
    assert(v@.skip(0) =~= v@);
    loop
        invariant
            v@ == contents@,
            n == v@.len(),
            start <= n,
            split_every(contents@, '\n') == done + split_every(v@.skip(start as int), '\n'),
            entries_view(out@) == env_entries(done),
        decreases n - start,
    {
        let ghost rest = v@.skip(start as int);
        let found = find_char_from(&v, start, '\n');
        let end = match found {
            Some(i) => i,
            None => n,
        };
        let line = string_of_chars(&v, start, end);
        let entry = line_entry(line.as_str());
        let ghost before = entries_view(out@);
        match entry {
            Some(e) => {
                out.push(e);
            },
            None => {},
        }
        proof {
            lemma_find_first(rest, '\n');
            let next = done.push(line@);
            assert(next.drop_last() =~= done);
            assert(entries_view(out@) =~= before + env_entry(line@));
            match find_first(rest, '\n') {
                Some(k) => {
                    assert(line@ =~= rest.take(k as int));
                    assert(rest.skip((k + 1) as int) =~= v@.skip(end + 1));
                    assert(split_every(rest, '\n') =~= seq![line@] + split_every(v@.skip(end + 1), '\n'));
                    assert(done + split_every(rest, '\n') =~= next + split_every(v@.skip(end + 1), '\n'));
                },
                None => {
                    assert(line@ =~= rest);
                    assert(split_every(rest, '\n') =~= seq![line@]);
                    assert(done + split_every(rest, '\n') =~= next);
                },
            }
            done = next;
        }
        match found {
            None => {
                return out;
            },
            Some(i) => {
                start = i + 1;
            },
        }
    }
}

/// The value of the last entry whose key is `key`.
pub open spec fn env_lookup(entries: Seq<(Seq<char>, Seq<char>)>, key: Seq<char>) -> Option<Seq<char>>
    decreases entries.len(),
{
    if entries.len() == 0 {
        None
    } else if entries.last().0 == key {
        Some(entries.last().1)
    } else {
        env_lookup(entries.drop_last(), key)
    }
}

/// The value of the last entry whose key is `key`: later entries override
/// earlier ones.
pub fn env_value(entries: &[(String, String)], key: &str) -> (r: Option<String>)
    ensures
        match r {
            Some(v) => env_lookup(entries_view(entries@), key@) == Some(v@),
            None => env_lookup(entries_view(entries@), key@) is None,
        },
{
    let mut i: usize = entries.len();
    assert(entries@.take(i as int) =~= entries@);
    while i > 0
        invariant
            i <= entries@.len(),
            env_lookup(entries_view(entries@), key@) == env_lookup(
                entries_view(entries@.take(i as int)),
                key@,
            ),
        decreases i,
    {
        let entry = &entries[i - 1];
        proof {
            assert(entries_view(entries@.take(i as int)).drop_last() =~= entries_view(
                entries@.take(i - 1),
            ));
        }
        if str_eq(entry.0.as_str(), key) {
            return Some(entry.1.clone());
        }
        i = i - 1;
    }
    assert(entries_view(entries@.take(0)) =~= Seq::<(Seq<char>, Seq<char>)>::empty());
    None
}

} // verus!
