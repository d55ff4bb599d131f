//! Which packages are installed, from the listing that `dpkg-query` prints.
//!
//! Asked with [`installed_query`], `dpkg-query` prints one line for each
//! package that it knows of: the package's name, a space, and the status of
//! the package. [`installed`] keeps the names whose status is `installed`.
use crate::command::{
    env_view, push_text, push_texts, str_views, Invocation, InvocationView, OutputMode,
};
use crate::text::{characters, text_between, texts};
use vstd::prelude::*;
use vstd::string::*;

verus! {

/// Where the first `stop` at or after `from` stands, or the length of the
/// text if there is none.
pub open spec fn find_from(text: Seq<char>, from: int, stop: char) -> int
    decreases text.len() - from,
{
    if 0 <= from < text.len() && text[from] != stop {
        find_from(text, from + 1, stop)
    } else {
        from
    }
}

/// The name of the package of one line of the listing, if the line reports
/// it as installed: the line's first field, when a second field follows and
/// is the word `installed`. Fields are separated by single spaces.
pub open spec fn installed_package(line: Seq<char>) -> Option<Seq<char>> {
    let name_end = find_from(line, 0, ' ');
    let status_end = find_from(line, name_end + 1, ' ');
    if name_end < line.len() && line.subrange(name_end + 1, status_end) == "installed"@ {
        Some(line.subrange(0, name_end))
    } else {
        None
    }
}

/// The line that begins at `from` and ends before `end`, where a line feed
/// stands or the text ends: without the carriage return of a line that
/// ends in a carriage return and a line feed.
pub open spec fn line_between(text: Seq<char>, from: int, end: int) -> Seq<char> {
    if end < text.len() && from < end && text[end - 1] == '\r' {
        text.subrange(from, end - 1)
    } else {
        text.subrange(from, end)
    }
}

/// The packages that the lines from `from` on report as installed, in the
/// order of the lines. A last line need not end in a line feed.
pub open spec fn installed_from(text: Seq<char>, from: int) -> Seq<Seq<char>>
    decreases text.len() + 1 - from,
{
    if 0 <= from < text.len() {
        proof {
            lemma_find_from(text, from, '\n');
        }
        let end = find_from(text, from, '\n');
        let rest = installed_from(text, end + 1);
        match installed_package(line_between(text, from, end)) {
            Some(name) => seq![name] + rest,
            None => rest,
        }
    } else {
        Seq::empty()
    }
}

/// The first `stop` at or after `from` stands at or after `from`, within
/// the text or at its end.
pub proof fn lemma_find_from(text: Seq<char>, from: int, stop: char)
    requires
        0 <= from <= text.len(),
    ensures
        from <= find_from(text, from, stop) <= text.len(),
        forall|i: int| from <= i < find_from(text, from, stop) ==> text[i] != stop,
        find_from(text, from, stop) < text.len() ==> text[find_from(text, from, stop)] == stop,
    decreases text.len() - from,
{
    if from < text.len() && text[from] != stop {
        lemma_find_from(text, from + 1, stop);
    }
}

/// The command that prints the listing for the packages:
/// `dpkg-query --show`, with the format of a line set to the name, a space
/// and the status, followed by the packages. It does not wait for the lock,
/// and its output is collected.
pub fn installed_query(packages: &[&str]) -> (command: Invocation)
    ensures
        command@ == (InvocationView {
            program: "dpkg-query"@,
            env: Seq::empty(),
            args: seq!["--show"@, "--showformat=${Package} ${db:Status-Status}\n"@] + str_views(
                packages@,
            ),
            output: OutputMode::Capture,
            lock_attempts: None,
        }),
{
    let env: Vec<(String, String)> = Vec::new();
    assert(env_view(env@) =~= Seq::<(Seq<char>, Seq<char>)>::empty());
    let mut args: Vec<String> = Vec::new();
    assert(texts(args@) =~= Seq::<Seq<char>>::empty());
    push_text(&mut args, "--show");
    push_text(&mut args, "--showformat=${Package} ${db:Status-Status}\n");
    push_texts(&mut args, packages);
    assert(texts(args@) =~= seq!["--show"@, "--showformat=${Package} ${db:Status-Status}\n"@]
        + str_views(packages@));
    Invocation {
        program: "dpkg-query".to_owned(),
        env,
        args,
        output: OutputMode::Capture,
        lock_attempts: None,
    }
}

/// Finds the first `stop` at or after `from`, before `limit`.
fn find(chars: &Vec<char>, from: usize, limit: usize, stop: char) -> (at: usize)
    requires
        from <= limit <= chars.len(),
    ensures
        from <= at <= limit,
        at == find_from(chars@.subrange(0, limit as int), from as int, stop),
{
    let ghost text = chars@.subrange(0, limit as int);
    let mut at: usize = from;
    while at < limit && chars[at] != stop
        invariant
            from <= at <= limit <= chars.len(),
            text == chars@.subrange(0, limit as int),
            find_from(text, from as int, stop) == find_from(text, at as int, stop),
        decreases limit - at,
    {
        assert(text[at as int] == chars@[at as int]);
        at += 1;
    }
    assert(at < limit ==> text[at as int] == chars@[at as int]);
    at
}

/// Whether the characters from `from` to `to` are those of `word`.
fn is_word(chars: &Vec<char>, from: usize, to: usize, word: &str) -> (same: bool)
    requires
        from <= to <= chars.len(),
    ensures
        same == (chars@.subrange(from as int, to as int) == word@),
{
    let letters = characters(word);
    if letters.len() != to - from {
        return false;
    }
    let mut i: usize = 0;
    while i < letters.len()
        invariant
            i <= letters.len(),
            letters.len() == to - from,
            from <= to <= chars.len(),
            letters@ == word@,
            forall|j: int| 0 <= j < i ==> chars@[from + j] == letters@[j],
        decreases letters.len() - i,
    {
        if chars[from + i] != letters[i] {
            assert(chars@.subrange(from as int, to as int)[i as int] != word@[i as int]);
            return false;
        }
        i += 1;
    }
    assert(chars@.subrange(from as int, to as int) =~= word@);
    true
}

/// Reads the listing that the command of [`installed_query`] printed and
/// hands out the names of the packages that it reports as installed, in the
/// order of their lines. A line without a second field reports nothing.
pub fn installed(listing: &str) -> (names: Vec<String>)
    ensures
        texts(names@) == installed_from(listing@, 0),
{
    let chars = characters(listing);
    let mut names: Vec<String> = Vec::new();
    let mut from: usize = 0;
    assert(texts(names@) =~= Seq::<Seq<char>>::empty());
    while from < chars.len()
        invariant
            chars@ == listing@,
            from <= chars.len(),
            texts(names@) + installed_from(chars@, from as int) == installed_from(chars@, 0),
        decreases chars.len() - from,
    {
        assert(chars@.subrange(0, chars.len() as int) =~= chars@);
        let end = find(&chars, from, chars.len(), '\n');
        let line_end: usize = if end < chars.len() && from < end && chars[end - 1] == '\r' {
            end - 1
        } else {
            end
        };
        let ghost line = line_between(chars@, from as int, end as int);
        assert(line == chars@.subrange(from as int, line_end as int));
        // the fields are looked for within the line: in the listing, from
        // the line's beginning up to its end
        let name_end = find(&chars, from, line_end, ' ');
        proof {
            lemma_find_shifts(chars@, from as int, line_end as int, from as int, ' ');
        }
        let ghost kept = texts(names@);
        if name_end < line_end {
            let status_end = find(&chars, name_end + 1, line_end, ' ');
            proof {
                lemma_find_shifts(chars@, from as int, line_end as int, name_end + 1, ' ');
                assert(line.subrange(name_end + 1 - from, status_end - from) =~= chars@.subrange(
                    name_end + 1,
                    status_end as int,
                ));
                assert(line.subrange(0, name_end - from) =~= chars@.subrange(
                    from as int,
                    name_end as int,
                ));
            }
            if is_word(&chars, name_end + 1, status_end, "installed") {
                let name = text_between(&chars, from, name_end);
                names.push(name);
                assert(texts(names@) =~= kept.push(name@));
                assert(installed_package(line) == Some(name@));
                assert(kept.push(name@) + installed_from(chars@, end + 1) =~= kept + (seq![name@]
                    + installed_from(chars@, end + 1)));
            } else {
                assert(installed_package(line) is None);
            }
        } else {
            assert(installed_package(line) is None);
        }
        from = if end < chars.len() {
            end + 1
        } else {
            end
        };
        assert(installed_from(chars@, end + 1) == installed_from(chars@, from as int));
    }
    assert(texts(names@) + Seq::<Seq<char>>::empty() =~= texts(names@));
    names
}

/// Looking for a character within a part of a text finds it where looking
/// in the whole text does, counted from the beginning of the part.
proof fn lemma_find_shifts(text: Seq<char>, begin: int, limit: int, from: int, stop: char)
    requires
        0 <= begin <= from <= limit <= text.len(),
    ensures
        find_from(text.subrange(0, limit), from, stop) - begin == find_from(
            text.subrange(begin, limit),
            from - begin,
            stop,
        ),
    decreases limit - from,
{
    let whole = text.subrange(0, limit);
    let part = text.subrange(begin, limit);
    if from < limit {
        assert(whole[from] == part[from - begin]);
        if whole[from] != stop {
            lemma_find_shifts(text, begin, limit, from + 1, stop);
        }
    }
}

} // verus!
