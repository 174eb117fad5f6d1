//! Which secondary indexes belong to a snapshot, and how each is opened.
use vstd::prelude::*;
use vstd::string::*;

use crate::index_selector::IndexDefinition;
use crate::text::{holds, same_text, texts};

verus! {

/// The generation of an index that a manifest records.
pub struct IndexRef {
    /// The file that the generation is based on.
    pub base: Option<String>,
    /// The files with what was changed since.
    pub deltas: Vec<String>,
}

/// The names of the recorded generations.
pub open spec fn generation_names(generations: Seq<(String, IndexRef)>) -> Seq<Seq<char>> {
    generations.map_values(|g: (String, IndexRef)| g.0@)
}

/// The indexes of a snapshot: those that its manifest records and, unless only
/// these are wanted, those that are listed on disk. A listed index is as it is
/// now, so it must not be used for a snapshot of the past.
pub fn index_names(
    generations: &Vec<(String, IndexRef)>,
    listed: &Vec<String>,
    versioned_only: bool,
) -> (r: Vec<String>)
    ensures
        texts(r@).no_duplicates(),
        forall|n: Seq<char>| #[trigger]
            texts(r@).contains(n) <==> generation_names(generations@).contains(n) || (
            !versioned_only && texts(listed@).contains(n)),
{
    let ghost recorded = generation_names(generations@);
    let ghost on_disk = texts(listed@);
    let mut out: Vec<String> = Vec::new();
    let mut i: usize = 0;
    assert(texts(out@) =~= seq![]);
    while i < generations.len()
        invariant
            i <= generations@.len(),
            recorded == generation_names(generations@),
            recorded.len() == generations@.len(),
            texts(out@).no_duplicates(),
            forall|n: Seq<char>| #[trigger]
                texts(out@).contains(n) <==> recorded.take(i as int).contains(n),
        decreases generations@.len() - i,
    {
        assert(recorded[i as int] == generations@[i as int].0@);
        add_new(&mut out, &generations[i].0);
        proof {
            one_more(recorded, i as int);
        }
        i = i + 1;
    }
    assert(recorded.take(i as int) =~= recorded);
    if !versioned_only {
        let mut j: usize = 0;
        while j < listed.len()
            invariant
                j <= listed@.len(),
                on_disk == texts(listed@),
                on_disk.len() == listed@.len(),
                texts(out@).no_duplicates(),
                forall|n: Seq<char>| #[trigger]
                    texts(out@).contains(n) <==> recorded.contains(n) || on_disk.take(
                        j as int,
                    ).contains(n),
            decreases listed@.len() - j,
        {
            assert(on_disk[j as int] == listed@[j as int]@);
            add_new(&mut out, &listed[j]);
            proof {
                one_more(on_disk, j as int);
            }
            j = j + 1;
        }
        assert(on_disk.take(j as int) =~= on_disk);
    }
    out
}

proof fn one_more(names: Seq<Seq<char>>, i: int)
    requires
        0 <= i < names.len(),
    ensures
        forall|n: Seq<char>| #[trigger]
            names.take(i + 1).contains(n) <==> names.take(i).contains(n) || n == names[i],
{
    assert forall|n: Seq<char>| #[trigger]
        names.take(i + 1).contains(n) <==> names.take(i).contains(n) || n == names[i] by {
        if names.take(i).contains(n) {
            assert(names.take(i + 1)[names.take(i).index_of(n)] == n);
        }
        assert(names.take(i + 1)[i] == names[i]);
        if names.take(i + 1).contains(n) && n != names[i] {
            assert(names.take(i)[names.take(i + 1).index_of(n)] == n);
        }
    }
}

fn add_new(names: &mut Vec<String>, name: &String)
    requires
        texts(old(names)@).no_duplicates(),
    ensures
        texts(final(names)@).no_duplicates(),
        forall|n: Seq<char>| #[trigger]
            texts(final(names)@).contains(n) <==> texts(old(names)@).contains(n) || n == name@,
{
    if !holds(names, name) {
        let ghost before = texts(names@);
        names.push(name.clone());
        let ghost after = texts(names@);
        assert(after =~= before.push(name@));
        assert(after[before.len() as int] == name@);
        assert forall|n: Seq<char>| #[trigger] after.contains(n) <==> before.contains(n) || n
            == name@ by {
            if before.contains(n) {
                assert(after[before.index_of(n)] == n);
            }
            if after.contains(n) && n != name@ {
                assert(before[after.index_of(n)] == n);
            }
        }
        assert forall|i: int, j: int| 0 <= i < j < after.len() implies after[i] != after[j] by {
            if j == before.len() {
                assert(before.contains(before[i]));
            }
        }
    }
}

/// One way to open an index, with the file that it is opened from. `T` is the
/// type of text.
#[derive(Debug, PartialEq, Eq)]
pub enum AttemptOf<T> {
    /// As a model of its keys, where these lie on a line.
    Learned(T),
    /// As a mapped binary file, with the changes since in memory.
    Binary(T),
    /// By reading the recorded generation.
    Generation,
    /// By reading the file that is not versioned.
    Legacy,
}

pub type IndexAttempt = AttemptOf<String>;

pub type AttemptView = AttemptOf<Seq<char>>;

impl View for AttemptOf<String> {
    type V = AttemptOf<Seq<char>>;

    open spec fn view(&self) -> AttemptOf<Seq<char>> {
        match *self {
            AttemptOf::Learned(path) => AttemptOf::Learned(path@),
            AttemptOf::Binary(path) => AttemptOf::Binary(path@),
            AttemptOf::Generation => AttemptOf::Generation,
            AttemptOf::Legacy => AttemptOf::Legacy,
        }
    }
}

/// The file of an index that is not versioned.
pub open spec fn legacy_path(name: Seq<char>) -> Seq<char> {
    "_indexes/"@ + name + ".json"@
}

/// The ways to open an index, the fastest first.
///
/// A model answers by arithmetic and a mapped file by reading only what is
/// looked up; reading the whole index always works. A model is of no use once
/// the generation has been changed, and a file can only be mapped where the
/// storage is local.
pub open spec fn attempts(
    name: Seq<char>,
    generation: Option<IndexRef>,
    local: bool,
) -> Seq<AttemptView> {
    match generation {
        Some(g) => {
            let learned = if g.deltas@.len() == 0 && g.base is Some {
                seq![AttemptOf::Learned(g.base->0@)]
            } else {
                seq![]
            };
            let binary = if local && g.base is Some {
                seq![AttemptOf::Binary(g.base->0@)]
            } else {
                seq![]
            };
            learned + binary + seq![AttemptOf::Generation]
        },
        None => {
            let binary = if local {
                seq![AttemptOf::Binary(legacy_path(name))]
            } else {
                seq![]
            };
            seq![AttemptOf::Learned(legacy_path(name))] + binary + seq![AttemptOf::Legacy]
        },
    }
}

/// The views of a sequence of attempts.
pub open spec fn attempt_views(list: Seq<IndexAttempt>) -> Seq<AttemptView> {
    list.map_values(|a: IndexAttempt| a@)
}

/// Where the generation of an index is recorded.
pub open spec fn generation_of(generations: Seq<(String, IndexRef)>, name: Seq<char>) -> Option<
    IndexRef,
>
    decreases generations.len(),
{
    if generations.len() == 0 {
        None
    } else if generations[0].0@ == name {
        Some(generations[0].1)
    } else {
        generation_of(generations.drop_first(), name)
    }
}

fn find_generation<'a>(generations: &'a Vec<(String, IndexRef)>, name: &String) -> (r: Option<
    &'a IndexRef,
>)
    ensures
        match generation_of(generations@, name@) {
            Some(g) => r matches Some(x) && *x == g,
            None => r is None,
        },
{
    let mut i: usize = 0;
    assert(generations@.skip(0) =~= generations@);
    while i < generations.len()
        invariant
            i <= generations@.len(),
            generation_of(generations@, name@) == generation_of(
                generations@.skip(i as int),
                name@,
            ),
        decreases generations@.len() - i,
    {
        assert(generations@.skip(i as int).drop_first() =~= generations@.skip(i as int + 1));
        if generations[i].0 == *name {
            return Some(&generations[i].1);
        }
        i = i + 1;
    }
    None
}

/// The ways to open the index `name` of a snapshot, the fastest first.
pub fn index_attempts(generations: &Vec<(String, IndexRef)>, name: &String, local: bool) -> (r: Vec<
    IndexAttempt,
>)
    ensures
        attempt_views(r@) == attempts(name@, generation_of(generations@, name@), local),
        r@.len() > 0,
{
    let mut out: Vec<IndexAttempt> = Vec::new();
    match find_generation(generations, name) {
        Some(g) => {
            match &g.base {
                Some(base) => {
                    if g.deltas.len() == 0 {
                        out.push(AttemptOf::Learned(base.clone()));
                    }
                    if local {
                        out.push(AttemptOf::Binary(base.clone()));
                    }
                },
                None => {},
            }
            out.push(AttemptOf::Generation);
        },
        None => {
            let mut path: String = "_indexes/".to_owned();
            path.append(name.as_str());
            path.append(".json");
            out.push(AttemptOf::Learned(path.clone()));
            if local {
                out.push(AttemptOf::Binary(path));
            }
            out.push(AttemptOf::Legacy);
        },
    }
    assert(attempt_views(out@) =~= attempts(name@, generation_of(generations@, name@), local));
    out
}

/// Whether a file that was found holds the index that was asked for.
pub fn index_matches(found: &IndexDefinition, table: &str, name: &str) -> (r: bool)
    ensures
        r == (found.table@ == table@ && found.name@ == name@),
{
    same_text(found.table.as_str(), table) && same_text(found.name.as_str(), name)
}

/// Whether an attempt opened the index: something was found and, where it is a
/// derived file, it is of this index.
pub open spec fn opens(
    attempt: AttemptView,
    found: Option<IndexDefinition>,
    table: Seq<char>,
    name: Seq<char>,
) -> bool {
    match found {
        None => false,
        Some(d) => match attempt {
            AttemptOf::Learned(_) => d.table@ == table && d.name@ == name,
            AttemptOf::Binary(_) => d.table@ == table && d.name@ == name,
            _ => true,
        },
    }
}

/// What to do after an attempt.
#[derive(Debug, Clone, Copy, PartialEq, Eq, Structural)]
pub enum IndexStep {
    /// The index is open.
    Use,
    /// Make the next attempt.
    Next,
    /// There is no such index.
    Absent,
}

/// Decides what to do after attempt `i`, which found an index with this
/// definition, or nothing.
pub fn after_attempt(
    list: &Vec<IndexAttempt>,
    i: usize,
    found: &Option<IndexDefinition>,
    table: &str,
    name: &str,
) -> (r: IndexStep)
    requires
        i < list@.len(),
    ensures
        r == if opens(list@[i as int]@, *found, table@, name@) {
            IndexStep::Use
        } else if i + 1 < list@.len() {
            IndexStep::Next
        } else {
            IndexStep::Absent
        },
{
    let open = match found {
        None => false,
        Some(d) => match &list[i] {
            AttemptOf::Learned(_) => index_matches(d, table, name),
            AttemptOf::Binary(_) => index_matches(d, table, name),
            _ => true,
        },
    };
    if open {
        IndexStep::Use
    } else if i < list.len() - 1 {
        IndexStep::Next
    } else {
        IndexStep::Absent
    }
}

/// A snapshot of the past never opens a file that is not versioned: every
/// index that it names has a recorded generation.
pub proof fn past_snapshots_use_recorded_generations(
    generations: Seq<(String, IndexRef)>,
    name: Seq<char>,
    local: bool,
)
    requires
        generation_names(generations).contains(name),
    ensures
        generation_of(generations, name) is Some,
        !attempts(name, generation_of(generations, name), local).contains(AttemptOf::Legacy),
    decreases generations.len(),
{
    let names = generation_names(generations);
    if generations[0].0@ != name {
        let rest = generations.drop_first();
        let i = names.index_of(name);
        assert(names[i] == generations[i].0@);
        assert(generation_names(rest)[i - 1] == name);
        past_snapshots_use_recorded_generations(rest, name, local);
    }
}

/// A changed generation is never answered by a model of its keys.
pub proof fn changed_generations_have_no_model(
    name: Seq<char>,
    generation: IndexRef,
    local: bool,
    i: int,
)
    requires
        generation.deltas@.len() > 0,
        0 <= i < attempts(name, Some(generation), local).len(),
    ensures
        !(attempts(name, Some(generation), local)[i] is Learned),
{
}

/// The generation of an index is the first one that is recorded under its name.
pub proof fn the_first_generation_counts(
    generations: Seq<(String, IndexRef)>,
    name: Seq<char>,
    i: int,
)
    requires
        0 <= i <= generations.len(),
        forall|k: int| 0 <= k < i ==> (#[trigger] generations[k]).0@ != name,
    ensures
        i < generations.len() && generations[i].0@ == name ==> generation_of(generations, name)
            == Some(generations[i].1),
        i == generations.len() ==> generation_of(generations, name) is None,
    decreases generations.len(),
{
    if i > 0 {
        let rest = generations.drop_first();
        assert(generations[0].0@ != name);
        assert forall|k: int| 0 <= k < i - 1 implies (#[trigger] rest[k]).0@ != name by {
            assert(rest[k] == generations[k + 1]);
        }
        the_first_generation_counts(rest, name, i - 1);
    }
}

/// The last attempt reads the whole index: the generation where one is recorded,
/// else the file of the index. The attempts before it use files that are derived
/// from the same one, a mapped file only where the storage is local, and are there
/// where they can be.
pub proof fn the_last_attempt_reads_the_index(
    name: Seq<char>,
    generation: Option<IndexRef>,
    local: bool,
    i: int,
)
    ensures
        ({
            let list = attempts(name, generation, local);
            let source = match generation {
                Some(g) => match g.base {
                    Some(path) => Some(path@),
                    None => None,
                },
                None => Some("_indexes/"@ + name + ".json"@),
            };
            &&& list.len() > 0
            &&& generation is Some ==> list.last() is Generation
            &&& generation is None ==> list.last() is Legacy
            &&& 0 <= i < list.len() - 1 ==> match list[i] {
                AttemptOf::Learned(path) => source == Some(path) && i == 0,
                AttemptOf::Binary(path) => source == Some(path) && local,
                _ => false,
            }
            &&& list.len() == 1 + (if source is Some && (generation matches Some(g)
                ==> g.deltas@.len() == 0) {
                1int
            } else {
                0int
            }) + (if source is Some && local {
                1int
            } else {
                0int
            })
        }),
{
}

/// A file that is derived from an index is used only where it is of that index; the
/// index itself is used wherever it was found.
pub proof fn derived_files_are_of_the_index(
    attempt: AttemptView,
    found: Option<IndexDefinition>,
    table: Seq<char>,
    name: Seq<char>,
)
    ensures
        found is None ==> !opens(attempt, found, table, name),
        found matches Some(d) ==> (opens(attempt, found, table, name) <==> (attempt is Generation
            || attempt is Legacy) || (d.table@ == table && d.name@ == name)),
{
}

} // verus!
