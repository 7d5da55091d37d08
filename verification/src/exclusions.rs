use vstd::prelude::*;
use vstd::string::StringExecFns;
use crate::env::{data_home, resolve_data_home, Environment, PathError};
use crate::path::{join, joined};

verus! {

/// `path` is one of the entries of `list`, character for character.
pub open spec fn listed(path: Seq<char>, list: Seq<String>) -> bool {
    exists|i: int| 0 <= i < list.len() && #[trigger] list[i]@ == path
}

/// Tells whether a directory is in the exclusion list. Only the very same
/// path counts: neither a directory below an excluded one nor a path that
/// merely starts like one is excluded.
pub fn is_excluded(dir: &str, exclusions: &[String]) -> (excluded: bool)
    ensures
        excluded == listed(dir@, exclusions@),
{
    let wanted: String = dir.to_owned();
    let mut i: usize = 0;
    while i < exclusions.len()
        invariant
            i <= exclusions@.len(),
            wanted@ == dir@,
            forall|j: int| 0 <= j < i ==> exclusions@[j]@ != dir@,
        decreases exclusions@.len() - i,
    {
        if exclusions[i] == wanted {
            return true;
        }
        i += 1;
    }
    false
}

/// Where the exclusion list is kept: `atuin-z/exclusions` in the data
/// home, if that can be told.
pub open spec fn exclusions_file(env: Environment) -> Option<Seq<char>> {
    match data_home(env.xdg_data_home, env.home) {
        Some(base) => Some(joined(joined(base, "atuin-z"@), "exclusions"@)),
        None => None,
    }
}

/// Resolves the path of the exclusion list: `XDG_DATA_HOME/atuin-z/exclusions`,
/// or `~/.local/share/atuin-z/exclusions` where the variable is not set.
/// Fails only where it is not set and the home directory is unknown.
pub fn exclusions_path(env: &Environment) -> (path: Result<String, PathError>)
    ensures
        match exclusions_file(*env) {
            Some(expected) => path is Ok && path->Ok_0@ == expected,
            None => path == Err::<String, PathError>(PathError::NoHomeDirectory),
        },
{
    match resolve_data_home(&env.xdg_data_home, &env.home) {
        Ok(base) => {
            let dir: String = join(base.as_str(), "atuin-z");
            Ok(join(dir.as_str(), "exclusions"))
        },
        Err(e) => Err(e),
    }
}

/// The texts of a list of strings.
pub open spec fn texts(list: Seq<String>) -> Seq<Seq<char>> {
    list.map_values(|s: String| s@)
}

/// Where the first line of `text` ends: the place of its first line feed,
/// or its length where it has none.
pub open spec fn line_end(text: Seq<char>) -> nat
    decreases text.len(),
{
    if text.len() == 0 || text[0] == '\n' {
        0
    } else {
        1 + line_end(text.drop_first())
    }
}

/// A line without the carriage return that stands at its end, if one does.
pub open spec fn without_cr(line: Seq<char>) -> Seq<char> {
    if line.len() > 0 && line.last() == '\r' {
        line.drop_last()
    } else {
        line
    }
}

/// The lines of a text. A line ends at a line feed, or at a carriage
/// return and a line feed; neither belongs to the line. What stands after
/// the last line feed is a line too, whole, unless it is empty.
pub open spec fn split_lines(text: Seq<char>) -> Seq<Seq<char>>
    decreases text.len(),
{
    let end = line_end(text) as int;
    if text.len() == 0 {
        Seq::empty()
    } else if end >= text.len() {
        seq![text]
    } else {
        seq![without_cr(text.subrange(0, end))] + split_lines(text.subrange(end + 1, text.len() as int))
    }
}

/// Splits a text into its lines with `str::lines`. Trusted: the result is
/// taken to be `split_lines` of the argument, which states what the
/// standard library documents of that method.
#[verifier::external_body]
fn lines(text: &str) -> (found: Vec<String>)
    ensures
        texts(found@) == split_lines(text@),
{
    text.lines().map(|line| line.to_string()).collect()
}

/// The entries that a stored exclusion list holds: its lines, but for the
/// empty ones.
pub open spec fn parsed(content: Seq<char>) -> Seq<Seq<char>> {
    split_lines(content).filter(|line: Seq<char>| line.len() > 0)
}

/// The exclusion list that a store holds: the entries of its content, and
/// none where there is no store.
pub open spec fn loaded(stored: Option<&str>) -> Seq<Seq<char>> {
    match stored {
        Some(content) => parsed(content@),
        None => Seq::empty(),
    }
}

/// Reads the exclusion list out of what is stored: one path on each line,
/// empty lines skipped. `None` stands for a store that does not exist, and
/// gives the empty list.
pub fn load(stored: Option<&str>) -> (entries: Vec<String>)
    ensures
        texts(entries@) == loaded(stored),
{
    let content: &str = match stored {
        Some(content) => content,
        None => {
            let none: Vec<String> = Vec::new();
            assert(texts(none@) =~= Seq::<Seq<char>>::empty());
            return none;
        },
    };
    let found: Vec<String> = lines(content);
    let ghost keep = |line: Seq<char>| line.len() > 0;
    let mut entries: Vec<String> = Vec::new();
    let mut i: usize = 0;
    proof {
        reveal(Seq::filter);
        assert(texts(found@).take(0) =~= Seq::<Seq<char>>::empty());
        assert(texts(entries@) =~= Seq::<Seq<char>>::empty());
    }
    while i < found.len()
        invariant
            i <= found@.len(),
            keep == |line: Seq<char>| line.len() > 0,
            texts(entries@) == texts(found@).take(i as int).filter(keep),
        decreases found@.len() - i,
    {
        let ghost before = texts(entries@);
        let ghost upto = texts(found@).take(i as int);
        let ghost next = texts(found@).take(i + 1);
        proof {
            reveal(Seq::filter);
            assert(next.drop_last() =~= upto);
            assert(next.last() == found@[i as int]@);
        }
        if !found[i].as_str().is_empty() {
            entries.push(found[i].clone());
            proof {
                assert(texts(entries@) =~= before.push(found@[i as int]@));
            }
        }
        i += 1;
    }
    proof {
        assert(texts(found@).take(found@.len() as int) =~= texts(found@));
    }
    entries
}

/// Adds a directory to an exclusion list, at its end, unless the list
/// holds it already. Tells whether the list has changed.
pub fn add(entries: &mut Vec<String>, dir: &str) -> (added: bool)
    ensures
        added == !listed(dir@, old(entries)@),
        listed(dir@, final(entries)@),
        !added ==> final(entries)@ == old(entries)@,
        added ==> final(entries)@.len() == old(entries)@.len() + 1,
        added ==> final(entries)@.drop_last() == old(entries)@,
        added ==> final(entries)@.last()@ == dir@,
{
    if is_excluded(dir, entries.as_slice()) {
        return false;
    }
    entries.push(String::from_str(dir));
    proof {
        assert(entries@.drop_last() =~= old(entries)@);
        assert(entries@[entries@.len() - 1]@ == dir@);
    }
    true
}

/// The entries one after the other, a line feed between each two.
pub open spec fn joined_lines(entries: Seq<String>) -> Seq<char>
    decreases entries.len(),
{
    if entries.len() == 0 {
        Seq::empty()
    } else if entries.len() == 1 {
        entries[0]@
    } else {
        joined_lines(entries.drop_last()) + "\n"@ + entries.last()@
    }
}

/// The stored form of an exclusion list: one entry on each line, and a
/// line feed at the end.
pub open spec fn rendered(entries: Seq<String>) -> Seq<char> {
    joined_lines(entries) + "\n"@
}

/// Writes an exclusion list out as the content to store.
pub fn render(entries: &[String]) -> (content: String)
    ensures
        content@ == rendered(entries@),
{
    let mut content: String = String::new();
    let mut i: usize = 0;
    while i < entries.len()
        invariant
            i <= entries@.len(),
            content@ == joined_lines(entries@.take(i as int)),
        decreases entries@.len() - i,
    {
        proof {
            assert(entries@.take(i + 1).drop_last() =~= entries@.take(i as int));
            assert(entries@.take(i + 1).last() == entries@[i as int]);
        }
        if i > 0 {
            content.append("\n");
        }
        content.append(entries[i].as_str());
        proof {
            if i == 0 {
                assert(content@ =~= entries@[0]@);
            }
        }
        i += 1;
    }
    proof {
        assert(entries@.take(entries@.len() as int) =~= entries@);
    }
    content.append("\n");
    content
}

/// An entry that the stored form hands back as it is: not empty, without
/// a line feed, and without a carriage return at its end.
pub open spec fn storable(entry: Seq<char>) -> bool {
    &&& entry.len() > 0
    &&& !entry.contains('\n')
    &&& entry.last() != '\r'
}

/// The entries one after the other, a line feed behind each.
spec fn line_by_line(entries: Seq<String>) -> Seq<char>
    decreases entries.len(),
{
    if entries.len() == 0 {
        Seq::empty()
    } else {
        entries[0]@ + seq!['\n'] + line_by_line(entries.drop_first())
    }
}

proof fn lemma_line_by_line_push(entries: Seq<String>)
    requires
        entries.len() > 0,
    ensures
        line_by_line(entries) == line_by_line(entries.drop_last()) + entries.last()@ + seq!['\n'],
    decreases entries.len(),
{
    if entries.len() == 1 {
        assert(entries.drop_first() =~= Seq::<String>::empty());
        assert(entries.drop_last() =~= Seq::<String>::empty());
        assert(line_by_line(entries) =~= line_by_line(entries.drop_last()) + entries.last()@
            + seq!['\n']);
    } else {
        let rest = entries.drop_first();
        lemma_line_by_line_push(rest);
        assert(rest.drop_last() =~= entries.drop_last().drop_first());
        assert(rest.last() == entries.last());
        assert(entries.drop_last()[0] == entries[0]);
        assert(line_by_line(entries) =~= line_by_line(entries.drop_last()) + entries.last()@
            + seq!['\n']);
    }
}

proof fn lemma_rendered_line_by_line(entries: Seq<String>)
    requires
        entries.len() > 0,
    ensures
        rendered(entries) == line_by_line(entries),
    decreases entries.len(),
{
    reveal_strlit("\n");
    assert("\n"@ =~= seq!['\n']);
    lemma_line_by_line_push(entries);
    if entries.len() == 1 {
        assert(entries.drop_last() =~= Seq::<String>::empty());
        assert(rendered(entries) =~= line_by_line(entries));
    } else {
        lemma_rendered_line_by_line(entries.drop_last());
        assert(rendered(entries) =~= rendered(entries.drop_last()) + entries.last()@ + seq!['\n']);
    }
}

proof fn lemma_line_end(line: Seq<char>, rest: Seq<char>)
    requires
        !line.contains('\n'),
    ensures
        line_end(line + seq!['\n'] + rest) == line.len(),
    decreases line.len(),
{
    let text = line + seq!['\n'] + rest;
    if line.len() == 0 {
        assert(text[0] == '\n');
    } else {
        assert(line.contains(line[0]));
        assert(text[0] == line[0]);
        let shorter = line.drop_first();
        assert forall|c: char| shorter.contains(c) implies line.contains(c) by {
            let i = choose|i: int| 0 <= i < shorter.len() && shorter[i] == c;
            assert(line[i + 1] == c);
        }
        lemma_line_end(shorter, rest);
        assert(text.drop_first() =~= shorter + seq!['\n'] + rest);
    }
}

proof fn lemma_parsed_line_by_line(entries: Seq<String>)
    requires
        forall|i: int| 0 <= i < entries.len() ==> storable(#[trigger] entries[i]@),
    ensures
        parsed(line_by_line(entries)) == texts(entries),
    decreases entries.len(),
{
    let keep = |line: Seq<char>| line.len() > 0;
    reveal(Seq::filter);
    if entries.len() == 0 {
        assert(line_by_line(entries) =~= Seq::<char>::empty());
        assert(parsed(line_by_line(entries)) =~= texts(entries));
    } else {
        let first = entries[0]@;
        let rest = entries.drop_first();
        let text = line_by_line(entries);
        assert(storable(entries[0]@));
        assert forall|i: int| 0 <= i < rest.len() implies storable(#[trigger] rest[i]@) by {
            assert(rest[i] == entries[i + 1]);
        }
        lemma_parsed_line_by_line(rest);
        lemma_line_end(first, line_by_line(rest));
        assert(text.subrange(0, first.len() as int) =~= first);
        assert(text.subrange(first.len() as int + 1, text.len() as int) =~= line_by_line(rest));
        assert(split_lines(text) == seq![first] + split_lines(line_by_line(rest)));
        Seq::filter_distributes_over_add(seq![first], split_lines(line_by_line(rest)), keep);
        assert(seq![first].drop_last() =~= Seq::<Seq<char>>::empty());
        assert(seq![first].filter(keep) =~= seq![first]);
        assert(texts(entries) =~= seq![first] + texts(rest));
    }
}

/// What `render` writes, `load` reads back: the stored form of a list of
/// storable entries holds these entries and no others, in their order.
pub proof fn load_reads_back_rendered(entries: Seq<String>)
    requires
        forall|i: int| 0 <= i < entries.len() ==> storable(#[trigger] entries[i]@),
    ensures
        parsed(rendered(entries)) == texts(entries),
{
    if entries.len() == 0 {
        reveal_strlit("\n");
        reveal(Seq::filter);
        let text = rendered(entries);
        assert(text =~= seq!['\n']);
        assert(line_end(text) == 0);
        assert(text.subrange(0, 0) =~= Seq::<char>::empty());
        assert(text.subrange(1, 1) =~= Seq::<char>::empty());
        let empty_line = Seq::<char>::empty();
        assert(split_lines(Seq::<char>::empty()) =~= Seq::<Seq<char>>::empty());
        assert(split_lines(text) =~= seq![empty_line]);
        assert(seq![empty_line].drop_last() =~= Seq::<Seq<char>>::empty());
        assert(parsed(text) =~= Seq::<Seq<char>>::empty());
        assert(texts(entries) =~= Seq::<Seq<char>>::empty());
    } else {
        lemma_rendered_line_by_line(entries);
        lemma_parsed_line_by_line(entries);
    }
}

} // verus!
