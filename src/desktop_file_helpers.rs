//! The decisions of a scan over the applications directory: which entry has
//! a given name, which entries start a given command, and where the
//! directory is. Reading the directory and its files is left to the caller,
//! which hands over the entries it could read, in the order it met them.
use vstd::prelude::*;
use crate::desktop_file_builder::{DesktopFileBuilder, EntryFields};
use crate::text::{contains_seq, contains_text, views};

verus! {

/// The records of a list of entries.
pub open spec fn entry_views(es: Seq<DesktopFileBuilder>) -> Seq<EntryFields> {
    es.map_values(|e: DesktopFileBuilder| e@)
}

/// The entry has the name `name`.
pub open spec fn named(e: EntryFields, name: Seq<char>) -> bool {
    e.name == Some(name)
}

/// The entry has a command, and `fragment` occurs in it.
pub open spec fn exec_contains(e: EntryFields, fragment: Seq<char>) -> bool {
    match e.exec_ {
        Some(x) => contains_seq(x, fragment),
        None => false,
    }
}

/// The paths, in order, of the entries whose command holds `fragment`.
pub open spec fn paths_with_exec(
    paths: Seq<Seq<char>>,
    es: Seq<EntryFields>,
    fragment: Seq<char>,
) -> Seq<Seq<char>>
    decreases paths.len(),
{
    if paths.len() == 0 || es.len() == 0 {
        Seq::<Seq<char>>::empty()
    } else {
        let rest = paths_with_exec(paths.drop_last(), es.drop_last(), fragment);
        if exec_contains(es.last(), fragment) {
            rest.push(paths.last())
        } else {
            rest
        }
    }
}

/// The position of the first entry named `app_name`, or `None` when no
/// entry has that name.
pub fn find_entry_by_name(entries: &Vec<DesktopFileBuilder>, app_name: &str) -> (r: Option<usize>)
    ensures
        match r {
            Some(i) => {
                &&& i < entries@.len()
                &&& named(entries@[i as int]@, app_name@)
                &&& forall|j: int| 0 <= j < i ==> !named(#[trigger] entries@[j]@, app_name@)
            },
            None => forall|j: int| 0 <= j < entries@.len() ==> !named(#[trigger] entries@[j]@, app_name@),
        },
{
    let mut i: usize = 0;
    while i < entries.len()
        invariant
            i <= entries@.len(),
            forall|j: int| 0 <= j < i ==> !named(#[trigger] entries@[j]@, app_name@),
        decreases entries@.len() - i,
    {
        if let Some(n) = entries[i].name() {
            if crate::text::same_text(n.as_str(), app_name) {
                return Some(i);
            }
        }
        i = i + 1;
    }
    None
}

/// The paths, in order, of the entries whose command holds `fragment`;
/// `paths[i]` is the file that `entries[i]` was read from. Empty, not an
/// error, when no entry matches.
pub fn paths_with_exec_containing(
    paths: &Vec<String>,
    entries: &Vec<DesktopFileBuilder>,
    fragment: &str,
) -> (r: Vec<String>)
    requires
        paths@.len() == entries@.len(),
    ensures
        views(r@) == paths_with_exec(views(paths@), entry_views(entries@), fragment@),
{
    let mut out: Vec<String> = Vec::new();
    let mut i: usize = 0;
    proof {
        assert(views(paths@).take(0) == Seq::<Seq<char>>::empty());
    }
    while i < entries.len()
        invariant
            paths@.len() == entries@.len(),
            i <= entries@.len(),
            views(out@) == paths_with_exec(
                views(paths@).take(i as int),
                entry_views(entries@).take(i as int),
                fragment@,
            ),
        decreases entries@.len() - i,
    {
        let ghost ps = views(paths@).take(i + 1);
        let ghost es = entry_views(entries@).take(i + 1);
        proof {
            assert(ps.drop_last() == views(paths@).take(i as int));
            assert(es.drop_last() == entry_views(entries@).take(i as int));
            assert(es.last() == entries@[i as int]@);
            assert(ps.last() == paths@[i as int]@);
        }
        let hit = match entries[i].exec() {
            Some(x) => contains_text(x.as_str(), fragment),
            None => false,
        };
        if hit {
            out.push(paths[i].clone());
            proof {
                assert(views(out@) == views(out@).drop_last().push(paths@[i as int]@));
            }
        }
        i = i + 1;
    }
    proof {
        assert(views(paths@).take(entries@.len() as int) == views(paths@));
        assert(entry_views(entries@).take(entries@.len() as int) == entry_views(entries@));
    }
    out
}

/// When no entry's command holds `fragment`, the list of paths is empty.
pub proof fn lemma_no_match_no_paths(
    paths: Seq<Seq<char>>,
    es: Seq<EntryFields>,
    fragment: Seq<char>,
)
    requires
        forall|j: int| 0 <= j < es.len() ==> !exec_contains(#[trigger] es[j], fragment),
    ensures
        paths_with_exec(paths, es, fragment) == Seq::<Seq<char>>::empty(),
    decreases paths.len(),
{
    if paths.len() > 0 && es.len() > 0 {
        let d = es.drop_last();
        assert forall|j: int| 0 <= j < d.len() implies !exec_contains(#[trigger] d[j], fragment) by {
            assert(d[j] == es[j]);
        }
        assert(!exec_contains(es[es.len() - 1], fragment));
        lemma_no_match_no_paths(paths.drop_last(), d, fragment);
    }
}

/// The system-wide applications directory.
pub const GLOBAL_APPLICATIONS_DIR: &'static str = "/usr/share/applications";

/// Where the applications directory is, from what the caller found: the
/// directory named by the override variable, if set; else the system-wide
/// directory, if it exists; else the one under the home directory, if the
/// home directory is known and that directory exists.
pub open spec fn location(
    env_dir: Option<Seq<char>>,
    global_exists: bool,
    local_dir: Option<Seq<char>>,
    local_exists: bool,
) -> Result<Seq<char>, Seq<char>> {
    match env_dir {
        Some(d) => Ok(d),
        None => if global_exists {
            Ok(GLOBAL_APPLICATIONS_DIR@)
        } else {
            match local_dir {
                None => Err("Failed to get home directory"@),
                Some(d) => if local_exists {
                    Ok(d)
                } else {
                    Err("Default path does not exist"@)
                },
            }
        },
    }
}

/// Picks the applications directory (see `location`). `env_dir` is the
/// value of the override variable, `global_exists` whether
/// `GLOBAL_APPLICATIONS_DIR` exists, `local_dir` the directory under the
/// home directory (`None` when the home directory is unknown) and
/// `local_exists` whether it exists.
pub fn choose_desktop_file_location(
    env_dir: Option<String>,
    global_exists: bool,
    local_dir: Option<String>,
    local_exists: bool,
) -> (r: Result<String, &'static str>)
    ensures
        crate::desktop_file_builder::text_result(r) == location(
            crate::desktop_file_builder::opt_view(env_dir),
            global_exists,
            crate::desktop_file_builder::opt_view(local_dir),
            local_exists,
        ),
{
    if let Some(d) = env_dir {
        return Ok(d);
    }
    if global_exists {
        return Ok(String::from_str(GLOBAL_APPLICATIONS_DIR));
    }
    match local_dir {
        None => Err("Failed to get home directory"),
        Some(d) => if local_exists {
            Ok(d)
        } else {
            Err("Default path does not exist")
        },
    }
}

} // verus!
