//! The git repositories plugin: one entry per repository path read from
//! the precomputed index (the file read itself stays outside). The
//! display title replaces the first occurrence of the home directory
//! with `~`; activation opens a terminal, an editor and a diff tool at
//! the path, then requests application exit.

use vstd::prelude::*;

use crate::model::{CommandView, ActivationCommand, Entry, EntryView};
use crate::text::{
    contains_seq, find_first, first_match_at, lemma_first_match_unique, string_from_chars,
};
use crate::worker::PluginWorker;

verus! {

/// `path` with the first occurrence of `home` replaced by `~`; the
/// path unchanged when `home` does not occur in it.
pub open spec fn display_name(path: Seq<char>, home: Seq<char>) -> Seq<char> {
    if contains_seq(path, home) {
        let i = choose|i: int| first_match_at(path, home, i);
        path.take(i) + seq!['~'] + path.skip(i + home.len())
    } else {
        path
    }
}

/// The entry derived from one repository path.
pub open spec fn git_entry(path: Seq<char>, home: Seq<char>) -> EntryView {
    EntryView { id: path, title: display_name(path, home), action: "focus"@, meta: "windows"@ }
}

/// The commands that activating one repository entry performs: a
/// terminal, an editor and a diff tool, each rooted at the entry's
/// path.
pub open spec fn git_activation_commands(entry_id: Seq<char>) -> Seq<CommandView> {
    seq![
        CommandView { program: "alacritty"@, args: seq!["--working-directory"@, entry_id] },
        CommandView { program: "sublime_text"@, args: seq!["--new-window"@, entry_id] },
        CommandView { program: "sublime_merge"@, args: seq!["--new-window"@, entry_id] },
    ]
}

/// Replaces the first occurrence of `home` in `path` with `~`.
fn display_name_exec(path: &str, home: &str) -> (r: String)
    ensures
        r@ == display_name(path@, home@),
{
    let p = crate::text::chars_of(path);
    let h = crate::text::chars_of(home);
    match find_first(&p, &h) {
        Some(i) => {
            let n = p.len();
            let hlen = h.len();
            let mut v: Vec<char> = Vec::new();
            let mut k: usize = 0;
            while k < i
                invariant
                    i <= n,
                    k <= i,
                    p@ == path@,
                    n == p@.len(),
                    v@ == path@.take(k as int),
                decreases i - k,
            {
                v.push(p[k]);
                proof {
                    assert(v@ =~= path@.take(k + 1));
                }
                k = k + 1;
            }
            v.push('~');
            let mut k2: usize = i + hlen;
            proof {
                assert(v@ =~= path@.take(i as int) + seq!['~'] + path@.skip(i + hlen).take(0));
            }
            while k2 < n
                invariant
                    i + hlen <= k2 <= n,
                    p@ == path@,
                    n == p@.len(),
                    hlen == home@.len(),
                    v@ == path@.take(i as int) + seq!['~'] + path@.skip(i + hlen).take(
                        k2 - i - hlen,
                    ),
                decreases n - k2,
            {
                v.push(p[k2]);
                proof {
                    assert(v@ =~= path@.take(i as int) + seq!['~'] + path@.skip(i + hlen).take(
                        k2 + 1 - i - hlen,
                    ));
                }
                k2 = k2 + 1;
            }
            proof {
                assert(path@.skip(i + hlen).take(n - i - hlen) =~= path@.skip(i + hlen));
                let w = choose|w: int| first_match_at(path@, home@, w);
                lemma_first_match_unique(path@, home@, w, i as int);
            }
            string_from_chars(&v)
        },
        None => String::from_str(path),
    }
}

/// The git repositories data source: a worker over the entries derived
/// from the index's paths. Reading the index file and the home
/// directory stays with the caller.
pub struct GitRepositoriesPlugin {
    pub worker: PluginWorker,
}

impl GitRepositoriesPlugin {
    /// One entry per repository path, in index order: the path itself
    /// is the activation id, the title is the path with the home
    /// directory shortened to `~`.
    pub fn entries_from_paths(paths: &Vec<String>, home: &str) -> (r: Vec<Entry>)
        ensures
            r.deep_view().len() == paths.deep_view().len(),
            forall|k: int|
                0 <= k < paths.deep_view().len() ==> #[trigger] r.deep_view()[k] == git_entry(
                    paths.deep_view()[k],
                    home@,
                ),
    {
        let n = paths.len();
        let mut r: Vec<Entry> = Vec::new();
        let mut i: usize = 0;
        while i < n
            invariant
                i <= n,
                n == paths@.len(),
                r.deep_view().len() == i,
                forall|k: int|
                    0 <= k < i ==> #[trigger] r.deep_view()[k] == git_entry(
                        paths.deep_view()[k],
                        home@,
                    ),
            decreases n - i,
        {
            let ghost prev = r.deep_view();
            let path = &paths[i];
            let e = Entry {
                id: path.clone(),
                title: display_name_exec(path.as_str(), home),
                action: String::from_str("focus"),
                meta: String::from_str("windows"),
            };
            r.push(e);
            proof {
                assert(forall|k: int|
                    0 <= k < prev.len() ==> #[trigger] r.deep_view()[k] == prev[k]);
                assert(r.deep_view()[i as int] == git_entry(paths.deep_view()[i as int], home@));
            }
            i = i + 1;
        }
        r
    }

    /// Identity `"git-repositories"`, priority 28.
    pub fn new(paths: &Vec<String>, home: &str) -> (p: Self)
        ensures
            p.worker@.id == "git-repositories"@,
            p.worker@.priority == 28,
            p.worker@.title == "󰘬 Git Repositories"@,
            p.worker@.entries.len() == paths.deep_view().len(),
            forall|k: int|
                0 <= k < paths.deep_view().len() ==> #[trigger] p.worker@.entries[k] == git_entry(
                    paths.deep_view()[k],
                    home@,
                ),
            p.worker@.last_query == Seq::<char>::empty(),
    {
        GitRepositoriesPlugin {
            worker: PluginWorker::new(
                String::from_str("git-repositories"),
                28,
                String::from_str("󰘬 Git Repositories"),
                Self::entries_from_paths(paths, home),
            ),
        }
    }

    /// The plugin's stable identity.
    pub fn id() -> (r: &'static str)
        ensures
            r@ == "git-repositories"@,
    {
        "git-repositories"
    }

    /// The plugin's precedence in the merged list.
    pub fn priority() -> (r: u32)
        ensures
            r == 28,
    {
        28
    }

    /// The plugin's section header.
    pub fn title() -> (r: &'static str)
        ensures
            r@ == "󰘬 Git Repositories"@,
    {
        "󰘬 Git Repositories"
    }

    /// A copy of the plugin's current entries.
    pub fn entries(&self) -> (r: Vec<Entry>)
        ensures
            r.deep_view() == self.worker@.entries,
    {
        self.worker.cloned_entries()
    }

    /// The activation decision for one entry id: the commands to spawn
    /// when the id belongs to one of this plugin's entries, `None` for
    /// an unknown id (a silent no-op, never an error). A `Some` result
    /// is followed by an `Exit` request toward the controller.
    pub fn activate(&self, entry_id: &String) -> (r: Option<Vec<ActivationCommand>>)
        ensures
            r is Some <==> (exists|j: int|
                0 <= j < self.worker@.entries.len() && #[trigger] self.worker@.entries[j].id
                    == entry_id@),
            r matches Some(cmds) ==> cmds.deep_view() == git_activation_commands(entry_id@),
    {
        match self.worker.on_activate(entry_id) {
            Some(_) => Some(activation_commands(entry_id)),
            None => None,
        }
    }
}

/// Builds the three activation commands for one repository path.
pub fn activation_commands(entry_id: &String) -> (cmds: Vec<ActivationCommand>)
    ensures
        cmds.deep_view() == git_activation_commands(entry_id@),
{
    let mut cmds: Vec<ActivationCommand> = Vec::new();
    let mut args1: Vec<String> = Vec::new();
    args1.push(String::from_str("--working-directory"));
    args1.push(entry_id.clone());
    cmds.push(ActivationCommand { program: String::from_str("alacritty"), args: args1 });
    let mut args2: Vec<String> = Vec::new();
    args2.push(String::from_str("--new-window"));
    args2.push(entry_id.clone());
    cmds.push(ActivationCommand { program: String::from_str("sublime_text"), args: args2 });
    let mut args3: Vec<String> = Vec::new();
    args3.push(String::from_str("--new-window"));
    args3.push(entry_id.clone());
    cmds.push(ActivationCommand { program: String::from_str("sublime_merge"), args: args3 });
    proof {
        assert(cmds.deep_view().len() == 3);
        assert(cmds.deep_view()[0].args =~= seq!["--working-directory"@, entry_id@]);
        assert(cmds.deep_view()[1].args =~= seq!["--new-window"@, entry_id@]);
        assert(cmds.deep_view()[2].args =~= seq!["--new-window"@, entry_id@]);
        assert(cmds.deep_view() =~= git_activation_commands(entry_id@));
    }
    cmds
}

} // verus!
