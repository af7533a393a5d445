//! The options of the command line, and what the commands that change an
//! item make of them.

use vstd::prelude::*;
use crate::book::{Item, ItemView, Password, clone_strings, contains_text, texts};

verus! {

#[derive(Debug)]
pub struct OptRoot {
    /// Disable output
    pub quiet: bool,
    /// Verbose mode (-v, -vv, -vvv, etc.)
    pub verbose: u8,
    /// Override vault directory
    pub vault_dir: Option<String>,
    /// Override config file path
    pub config: Option<String>,
    /// Do not use a config file at all
    pub disable_config: bool,
    /// Vault name
    pub vault_name: Option<String>,
    /// Vault file path
    pub vault_file: Option<String>,
    /// Vault password
    pub password: Option<String>,
    pub subcommand: SubCommand,
}

#[derive(Debug)]
pub enum SubCommand {
    /// Initialize the vault directory
    Init,
    /// Vault operations
    Vault(OptVault),
    /// Add a new item
    Add(OptAdd),
    /// Edit an item
    Edit(OptEdit),
    /// Rename an item
    Rename(OptRename),
    /// Remove an item
    Remove(OptRemove),
    /// List all items
    List(OptList),
    /// Show an item
    Show(OptShow),
    /// Copy the password of an item to the clipboard
    Copy(OptCopy),
    /// Synchronize with the remote
    Sync(OptSync),
    /// Show or clear the settings
    Config(OptConfig),
}

#[derive(Debug)]
pub struct OptVault {
    pub subcommand: VaultSubCommand,
}

#[derive(Debug)]
pub enum VaultSubCommand {
    Create(OptVaultCreate),
    Import(OptVaultImport),
    Rename(OptVaultRename),
    Delete(OptVaultDelete),
    Copy(OptVaultCopy),
    ChangePassword(OptVaultChangePassword),
    List(OptVaultList),
    Show(OptVaultShow),
}

#[derive(Debug)]
pub struct OptVaultCreate {
    pub name: String,
    pub password: Option<String>,
}

#[derive(Debug)]
pub struct OptVaultImport {
    pub name: String,
    pub import_string: String,
}

#[derive(Debug)]
pub struct OptVaultRename {
    pub old_name: String,
    pub new_name: String,
    /// Keep the old vault on the remote
    pub remote_keep_old: bool,
}

#[derive(Debug)]
pub struct OptVaultDelete {
    pub name: String,
    /// Do not ask for the password
    pub force: bool,
    /// Delete the vault from the remote too
    pub remote: bool,
}

#[derive(Debug)]
pub struct OptVaultCopy {
    pub old_name: String,
    pub new_name: String,
}

#[derive(Debug)]
pub struct OptVaultChangePassword {
    pub name: String,
    pub password: Option<String>,
}

#[derive(Debug)]
pub struct OptVaultList {
    pub json: bool,
}

#[derive(Debug)]
pub struct OptVaultShow {
    pub name: String,
    pub json: bool,
}

#[derive(Debug)]
pub struct OptAdd {
    pub name: String,
    pub tags: Vec<String>,
    pub notes: Vec<String>,
    pub password: Option<String>,
    /// Do not ask for a password
    pub skip_password: bool,
}

#[derive(Debug)]
pub struct OptEdit {
    pub name: String,
    /// Tags to add
    pub tags: Vec<String>,
    /// Tags to remove
    pub remove_tags: Vec<String>,
    /// Notes to add
    pub notes: Vec<String>,
    /// Positions of the notes to remove
    pub remove_notes: Vec<usize>,
    pub password: Option<String>,
    /// Ask for a new password
    pub change_password: bool,
}

#[derive(Debug)]
pub struct OptRename {
    pub old_name: String,
    pub new_name: String,
}

#[derive(Debug)]
pub struct OptRemove {
    pub name: String,
}

#[derive(Debug)]
pub struct OptList {
    pub json: bool,
}

#[derive(Debug)]
pub struct OptShow {
    pub name: String,
    /// Show the password
    pub password: bool,
    pub json: bool,
}

#[derive(Debug)]
pub struct OptCopy {
    pub name: String,
}

#[derive(Debug)]
pub struct OptSync {
    pub subcommand: Option<SyncSubCommand>,
}

#[derive(Debug)]
pub enum SyncSubCommand {
    /// Set up synchronization
    Setup(OptSyncSetup),
    /// Show the transfer string
    Export,
    /// Remove the synchronization configuration from the vault
    Detach,
    /// Delete the vault from the remote
    Delete,
    /// Push the local vault over the remote one
    Overwrite,
    /// Show the provider
    Show(OptSyncShow),
}

#[derive(Debug)]
pub struct OptSyncSetup {
    /// A transfer string
    pub import: Option<String>,
    /// A configuration in JSON
    pub json: Option<String>,
}

#[derive(Debug)]
pub struct OptSyncShow {
    pub json: bool,
}

#[derive(Debug)]
pub struct OptConfig {
    pub json: bool,
    pub clear: bool,
}

/// The notes among the first `n` whose positions are not to be removed.
pub open spec fn kept_notes(notes: Seq<Seq<char>>, removed: Seq<usize>, n: int) -> Seq<Seq<char>>
    decreases n,
{
    if n <= 0 || n > notes.len() {
        Seq::empty()
    } else if removed.contains((n - 1) as usize) {
        kept_notes(notes, removed, n - 1)
    } else {
        kept_notes(notes, removed, n - 1).push(notes[n - 1])
    }
}

/// Tests whether a position occurs in a vector of positions.
pub fn contains_position(v: &Vec<usize>, p: usize) -> (r: bool)
    ensures
        r == v@.contains(p),
{
    let mut i: usize = 0;
    while i < v.len()
        invariant
            i <= v.len(),
            forall|j: int| 0 <= j < i ==> v@[j] != p,
        decreases v.len() - i,
    {
        if v[i] == p {
            return true;
        }
        i += 1;
    }
    false
}

impl OptAdd {
    /// The item that the command adds, with the password that was given on
    /// the command line or, where none was, the one that was asked for.
    pub fn item(&self, asked: Option<String>) -> (r: Item)
        ensures
            r@ == (ItemView {
                name: self.name@,
                password: match (self.password, asked) {
                    (Some(p), _) => Some(p@),
                    (None, Some(p)) => Some(p@),
                    (None, None) => None,
                },
                tags: texts(self.tags@).to_set(),
                notes: texts(self.notes@),
            }),
    {
        let password = match (&self.password, &asked) {
            (Some(p), _) => Some(Password::new(p.as_str())),
            (None, Some(p)) => Some(Password::new(p.as_str())),
            (None, None) => None,
        };
        let r = Item {
            name: self.name.clone(),
            password,
            tags: clone_strings(&self.tags),
            notes: clone_strings(&self.notes),
        };
        assert(r@.tags =~= texts(self.tags@).to_set());
        r
    }
}

impl OptEdit {
    /// What the command makes of an item: a new password where one was given
    /// on the command line or asked for; the notes without those at the
    /// positions to remove, then the notes to add; the tags without those to
    /// remove, and the tags to add.
    pub fn apply(&self, item: &mut Item, asked: Option<String>)
        requires
            forall|i: int| 0 <= i < self.remove_notes.len() ==> self.remove_notes@[i] < old(item).notes.len(),
        ensures
            final(item)@.name == old(item)@.name,
            final(item)@.password == (match (self.password, asked) {
                (Some(p), _) => Some(p@),
                (None, Some(p)) => Some(p@),
                (None, None) => old(item)@.password,
            }),
            final(item)@.notes == kept_notes(
                old(item)@.notes,
                self.remove_notes@,
                old(item)@.notes.len() as int,
            ) + texts(self.notes@),
            final(item)@.tags == old(item)@.tags.difference(texts(self.remove_tags@).to_set()).union(
                texts(self.tags@).to_set(),
            ),
    {
        match (&self.password, &asked) {
            (Some(p), _) => {
                item.password = Some(Password::new(p.as_str()));
            },
            (None, Some(p)) => {
                item.password = Some(Password::new(p.as_str()));
            },
            (None, None) => {},
        }
        let ghost old_notes = texts(item.notes@);
        let mut notes: Vec<String> = Vec::new();
        let mut i: usize = 0;
        assert(texts(notes@) =~= kept_notes(old_notes, self.remove_notes@, 0));
        while i < item.notes.len()
            invariant
                i <= item.notes.len(),
                old_notes == texts(item.notes@),
                texts(notes@) == kept_notes(old_notes, self.remove_notes@, i as int),
            decreases item.notes.len() - i,
        {
            if !contains_position(&self.remove_notes, i) {
                let ghost sofar = texts(notes@);
                notes.push(item.notes[i].clone());
                assert(texts(notes@) =~= sofar.push(old_notes[i as int]));
            }
            i += 1;
        }
        let mut k: usize = 0;
        let ghost kept = texts(notes@);
        assert(texts(self.notes@).take(0) =~= Seq::<Seq<char>>::empty());
        assert(kept + Seq::<Seq<char>>::empty() =~= kept);
        while k < self.notes.len()
            invariant
                k <= self.notes.len(),
                texts(notes@) == kept + texts(self.notes@).take(k as int),
            decreases self.notes.len() - k,
        {
            let ghost sofar = texts(notes@);
            notes.push(self.notes[k].clone());
            assert(texts(notes@) =~= sofar.push(texts(self.notes@)[k as int]));
            assert(texts(self.notes@).take(k + 1) =~= texts(self.notes@).take(k as int).push(
                texts(self.notes@)[k as int],
            ));
            assert(texts(notes@) =~= kept + texts(self.notes@).take(k + 1));
            k += 1;
        }
        assert(texts(self.notes@).take(k as int) =~= texts(self.notes@));

        let ghost old_tags = texts(item.tags@);
        let ghost gone = texts(self.remove_tags@);
        let mut tags: Vec<String> = Vec::new();
        let mut t: usize = 0;
        while t < item.tags.len()
            invariant
                t <= item.tags.len(),
                old_tags == texts(item.tags@),
                gone == texts(self.remove_tags@),
                forall|x: Seq<char>| #[trigger]
                    texts(tags@).contains(x) <==> (old_tags.take(t as int).contains(x) && !gone.contains(
                        x,
                    )),
            decreases item.tags.len() - t,
        {
            let ghost sofar = texts(tags@);
            let ghost cur = old_tags[t as int];
            assert(cur == item.tags@[t as int]@);
            let keep = !contains_text(&self.remove_tags, &item.tags[t]);
            if keep {
                tags.push(item.tags[t].clone());
                assert(texts(tags@) =~= sofar.push(cur));
            }
            proof {
                assert(old_tags.take(t + 1) =~= old_tags.take(t as int).push(cur));
                assert forall|x: Seq<char>| #[trigger]
                    texts(tags@).contains(x) <==> (old_tags.take(t + 1).contains(x) && !gone.contains(
                        x,
                    )) by {
                    lemma_push_contains(old_tags.take(t as int), cur, x);
                    if keep {
                        lemma_push_contains(sofar, cur, x);
                    }
                }
            }
            t += 1;
        }
        assert(old_tags.take(t as int) =~= old_tags);
        let ghost filtered = texts(tags@);
        let ghost added = texts(self.tags@);
        let mut a: usize = 0;
        while a < self.tags.len()
            invariant
                a <= self.tags.len(),
                added == texts(self.tags@),
                forall|x: Seq<char>| #[trigger]
                    texts(tags@).contains(x) <==> (filtered.contains(x) || added.take(a as int).contains(x)),
            decreases self.tags.len() - a,
        {
            let ghost sofar = texts(tags@);
            let ghost cur = added[a as int];
            assert(cur == self.tags@[a as int]@);
            tags.push(self.tags[a].clone());
            proof {
                assert(texts(tags@) =~= sofar.push(cur));
                assert(added.take(a + 1) =~= added.take(a as int).push(cur));
                assert forall|x: Seq<char>| #[trigger]
                    texts(tags@).contains(x) <==> (filtered.contains(x) || added.take(a + 1).contains(x)) by {
                    lemma_push_contains(sofar, cur, x);
                    lemma_push_contains(added.take(a as int), cur, x);
                }
            }
            a += 1;
        }
        assert(added.take(a as int) =~= added);
        item.notes = notes;
        item.tags = tags;
        assert(item@.tags =~= old_tags.to_set().difference(gone.to_set()).union(added.to_set()));
    }
}

/// What a sequence with one more element holds.
pub proof fn lemma_push_contains(s: Seq<Seq<char>>, e: Seq<char>, x: Seq<char>)
    ensures
        s.push(e).contains(x) <==> (s.contains(x) || x == e),
{
    if s.contains(x) {
        let i = choose|i: int| 0 <= i < s.len() && s[i] == x;
        assert(s.push(e)[i] == x);
    }
    if x == e {
        assert(s.push(e)[s.len() as int] == x);
    }
    if s.push(e).contains(x) {
        let i = choose|i: int| 0 <= i < s.push(e).len() && s.push(e)[i] == x;
        if i < s.len() {
            assert(s[i] == x);
        }
    }
}

} // verus!
