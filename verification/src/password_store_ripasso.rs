//! Pass-compatible password store: a directory of `*.gpg` files whose first
//! line is the password and whose other lines may hold `name: value` fields.
//!
//! The directory reads and the `gpg` runs happen outside; this module walks
//! the directory tree they read, keeps the list of entries, and turns what
//! `gpg` decrypted into passwords and fields.

use vstd::prelude::*;

use crate::password_store::{option_string_view, PasswordStoreError};
use crate::text::{
    chars_equal, chars_equal_ignoring_ascii_case, chars_of, copy_range, equal_ignoring_ascii_case, find_char,
    index_of, lines, lines_of, string_of, trim, trimmed, views,
};

verus! {

/// Ripasso-backed password store: where the store lives and which entries it holds.
pub struct RipassoPasswordStore {
    /// Path to the password store directory.
    store_path: String,
    /// The entries of the store: the paths of its `.gpg` files, relative to the
    /// store and without the extension.
    entries: Vec<String>,
}

/// The views of a sequence of strings.
pub open spec fn entry_views(v: Seq<String>) -> Seq<Seq<char>> {
    v.map_values(|s: String| s@)
}

/// The password held in a decrypted secret: its first line (empty if it has none).
pub open spec fn spec_password_of(secret: Seq<char>) -> Seq<char> {
    let ls = lines_of(secret);
    if ls.len() > 0 {
        ls[0]
    } else {
        Seq::empty()
    }
}

/// The value `line` gives to `field_name`, if it is a `name: value` line for it.
pub open spec fn field_of_line(line: Seq<char>, field_name: Seq<char>) -> Option<Seq<char>> {
    match index_of(line, ':') {
        Some(k) => if equal_ignoring_ascii_case(trim(line.take(k)), field_name) {
            Some(trim(line.skip(k + 1)))
        } else {
            None
        },
        None => None,
    }
}

/// The value of the first of `lines` that gives one to `field_name`.
pub open spec fn field_of_lines(lines: Seq<Seq<char>>, field_name: Seq<char>) -> Option<Seq<char>>
    decreases lines.len(),
{
    if lines.len() == 0 {
        None
    } else {
        match field_of_line(lines[0], field_name) {
            Some(v) => Some(v),
            None => field_of_lines(lines.drop_first(), field_name),
        }
    }
}

/// The entry name of a `.gpg` file at `relative` in the store: the path with
/// the `.gpg` extension removed.
pub open spec fn spec_entry_name(relative: Seq<char>) -> Seq<char> {
    if relative.len() >= 4 && relative.skip(relative.len() - 4) == ".gpg"@ {
        relative.take(relative.len() - 4)
    } else {
        relative
    }
}

impl RipassoPasswordStore {
    pub closed spec fn spec_store_path(&self) -> Seq<char> {
        self.store_path@
    }

    pub closed spec fn spec_entries(&self) -> Seq<Seq<char>> {
        entry_views(self.entries@)
    }

    /// Checks what makes a directory a pass store, in the order in which it is
    /// checked: the directory exists, it has a `.gpg-id` file, and `gpg` runs.
    pub fn check_layout(store_path: &str, dir_exists: bool, has_gpg_id: bool, gpg_available: bool) -> (r: Result<(), PasswordStoreError>)
        ensures
            !dir_exists ==> (r matches Err(PasswordStoreError::NotInitialized(m))
                && m@ == "Password store directory does not exist: "@ + store_path@),
            dir_exists && !has_gpg_id ==> (r matches Err(PasswordStoreError::NotInitialized(m))
                && m@ == "Not a valid pass store: missing .gpg-id file at "@ + store_path@),
            dir_exists && has_gpg_id && !gpg_available ==> (r matches Err(PasswordStoreError::AccessError(m))
                && m@ == "gpg command not found. Please install GPG."@),
            dir_exists && has_gpg_id && gpg_available ==> r is Ok,
    {
        if !dir_exists {
            return Err(PasswordStoreError::NotInitialized(
                String::from_str("Password store directory does not exist: ").concat(store_path),
            ));
        }
        if !has_gpg_id {
            return Err(PasswordStoreError::NotInitialized(
                String::from_str("Not a valid pass store: missing .gpg-id file at ").concat(store_path),
            ));
        }
        if !gpg_available {
            return Err(PasswordStoreError::AccessError(String::from_str("gpg command not found. Please install GPG.")));
        }
        Ok(())
    }

    /// A store at `store_path` holding `entries`.
    pub fn new(store_path: String, entries: Vec<String>) -> (s: Self)
        ensures
            s.spec_store_path() == store_path@,
            s.spec_entries() == entry_views(entries@),
    {
        RipassoPasswordStore { store_path, entries }
    }

    /// Path to the password store directory.
    pub fn store_path(&self) -> (p: &str)
        ensures
            p@ == self.spec_store_path(),
    {
        self.store_path.as_str()
    }

    /// Refresh the password list from a new scan of the directory: the entries
    /// it found replace the old ones; a failed scan leaves them as they were.
    pub fn refresh(&mut self, scanned: Result<Vec<String>, PasswordStoreError>) -> (r: Result<(), PasswordStoreError>)
        ensures
            final(self).spec_store_path() == old(self).spec_store_path(),
            match scanned {
                Ok(v) => r is Ok && final(self).spec_entries() == entry_views(v@),
                Err(e) => r == Err::<(), PasswordStoreError>(e) && final(self).spec_entries() == old(self).spec_entries(),
            },
    {
        match scanned {
            Ok(v) => {
                self.entries = v;
                Ok(())
            },
            Err(e) => Err(e),
        }
    }

    /// The entries of the store.
    pub fn list_entries(&self) -> (r: Result<Vec<String>, PasswordStoreError>)
        ensures
            r matches Ok(v) && entry_views(v@) == self.spec_entries(),
    {
        let n = self.entries.len();
        let mut out: Vec<String> = Vec::new();
        let mut i: usize = 0;
        while i < n
            invariant
                n == self.entries@.len(),
                i <= n,
                entry_views(out@) == entry_views(self.entries@).take(i as int),
            decreases n - i,
        {
            let e = string_of(chars_of(self.entries[i].as_str()).as_slice());
            let ghost before = out@;
            out.push(e);
            assert(entry_views(out@) == entry_views(before).push(e@));
            assert(entry_views(self.entries@).take(i + 1)
                == entry_views(self.entries@).take(i as int).push(self.entries@[i as int]@));
            i = i + 1;
        }
        assert(entry_views(self.entries@).take(n as int) == entry_views(self.entries@));
        Ok(out)
    }

    /// Whether the store holds an entry at `path`.
    pub fn contains_entry(&self, path: &str) -> (r: bool)
        ensures
            r == self.spec_entries().contains(path@),
    {
        let p = chars_of(path);
        let n = self.entries.len();
        let mut i: usize = 0;
        while i < n
            invariant
                n == self.entries@.len(),
                i <= n,
                p@ == path@,
                forall|j: int| 0 <= j < i ==> (#[trigger] self.entries@[j])@ != path@,
            decreases n - i,
        {
            let e = chars_of(self.entries[i].as_str());
            if chars_equal(e.as_slice(), p.as_slice()) {
                assert(entry_views(self.entries@)[i as int] == path@);
                return true;
            }
            i = i + 1;
        }
        assert forall|j: int| 0 <= j < entry_views(self.entries@).len() implies
            entry_views(self.entries@)[j] != path@ by {
            assert(entry_views(self.entries@)[j] == self.entries@[j]@);
        }
        false
    }

    /// The password held in a decrypted secret: its first line.
    pub fn password_from_secret(secret: &str) -> (r: String)
        ensures
            r@ == spec_password_of(secret@),
    {
        let s = chars_of(secret);
        let ls = lines(s.as_slice());
        if ls.len() > 0 {
            assert(views(ls@)[0] == ls@[0]@);
            string_of(ls[0].as_slice())
        } else {
            String::new()
        }
    }

    /// The value of the field `field_name` in a decrypted secret: the part after
    /// the first `:` of the first line whose part before it is the field's name
    /// (white space trimmed, ASCII case ignored), trimmed.
    pub fn field_from_secret(secret: &str, field_name: &str) -> (r: Result<String, PasswordStoreError>)
        ensures
            match field_of_lines(lines_of(secret@), field_name@) {
                Some(v) => r matches Ok(s) && s@ == v,
                None => r matches Err(PasswordStoreError::FieldNotFound(f)) && f@ == field_name@,
            },
    {
        let s = chars_of(secret);
        let f = chars_of(field_name);
        let ls = lines(s.as_slice());
        let ghost all = lines_of(secret@);
        let n = ls.len();
        let mut i: usize = 0;
        assert(all.skip(0) == all);
        while i < n
            invariant
                n == ls@.len(),
                i <= n,
                views(ls@) == all,
                all == lines_of(secret@),
                f@ == field_name@,
                field_of_lines(all, field_name@) == field_of_lines(all.skip(i as int), field_name@),
            decreases n - i,
        {
            let line = ls[i].as_slice();
            let ll = line.len();
            assert(all.skip(i as int)[0] == line@);
            assert(all.skip(i as int).drop_first() == all.skip(i + 1));
            match find_char(line, ':') {
                Some(k) => {
                    let key = trimmed(copy_range(line, 0, k).as_slice());
                    assert(line@.subrange(0, k as int) == line@.take(k as int));
                    if chars_equal_ignoring_ascii_case(key.as_slice(), f.as_slice()) {
                        let value = trimmed(copy_range(line, k + 1, ll).as_slice());
                        assert(line@.subrange(k + 1, line@.len() as int) == line@.skip(k + 1));
                        assert(field_of_line(line@, field_name@) == Some(value@));
                        assert(field_of_lines(all.skip(i as int), field_name@) == Some(value@));
                        return Ok(string_of(value.as_slice()));
                    }
                    assert(field_of_line(line@, field_name@) is None);
                },
                None => {
                    assert(field_of_line(line@, field_name@) is None);
                },
            }
            i = i + 1;
        }
        assert(all.skip(n as int).len() == 0);
        Err(PasswordStoreError::FieldNotFound(String::from_str(field_name)))
    }

    /// The entry name of the `.gpg` file at `relative`: the path without `.gpg`.
    pub fn entry_name(relative: &str) -> (r: String)
        ensures
            r@ == spec_entry_name(relative@),
    {
        let s = chars_of(relative);
        let n = s.len();
        if n >= 4 {
            let tail = copy_range(s.as_slice(), n - 4, n);
            assert(s@.subrange(n - 4, n as int) == s@.skip(n - 4));
            if chars_equal_str_gpg(tail.as_slice()) {
                let head = copy_range(s.as_slice(), 0, n - 4);
                assert(s@.subrange(0, n - 4) == s@.take(n - 4));
                return string_of(head.as_slice());
            }
        }
        string_of(s.as_slice())
    }
}

/// What the directory walk does with one entry of a directory.
pub enum ScanAction {
    /// Walk this directory too.
    Descend,
    /// Pass over it.
    Skip,
    /// A password entry, by this name.
    Entry(String),
}

/// What a directory entry comes to in the walk: a directory is walked unless
/// it is named `.git`; a file with the extension `gpg` is an entry, named by
/// its path under the store (`relative`) without `.gpg`; anything else is
/// passed over.
pub open spec fn spec_scan_action(relative: Seq<char>, file_name: Option<Seq<char>>, is_dir: bool, is_file: bool,
    extension: Option<Seq<char>>) -> Option<Option<Seq<char>>>
{
    if is_dir {
        if file_name == Some(".git"@) { None } else { Some(None) }
    } else if is_file && extension == Some("gpg"@) {
        Some(Some(spec_entry_name(relative)))
    } else {
        None
    }
}

/// What the walk does with the entry at `relative`, named `file_name`, with
/// `extension`. (In the spec, `None` is to pass over, `Some(None)` to walk in,
/// `Some(Some(name))` an entry.)
pub fn scan_action(relative: &str, file_name: Option<&str>, is_dir: bool, is_file: bool, extension: Option<&str>) -> (a: ScanAction)
    ensures
        match spec_scan_action(relative@, match file_name { Some(n) => Some(n@), None => None }, is_dir, is_file,
            match extension { Some(e) => Some(e@), None => None }) {
            None => a is Skip,
            Some(None) => a is Descend,
            Some(Some(n)) => a matches ScanAction::Entry(x) && x@ == n,
        },
{
    if is_dir {
        let is_git = match file_name {
            Some(n) => crate::text::chars_equal_str(chars_of(n).as_slice(), ".git"),
            None => false,
        };
        if is_git { ScanAction::Skip } else { ScanAction::Descend }
    } else if is_file && match extension {
        Some(e) => crate::text::chars_equal_str(chars_of(e).as_slice(), "gpg"),
        None => false,
    } {
        ScanAction::Entry(RipassoPasswordStore::entry_name(relative))
    } else {
        ScanAction::Skip
    }
}

/// A directory entry as the walk finds it: its path under the store, its file
/// name, whether it is a directory or a file, its extension, and, for a
/// directory the walk enters, the entries it holds.
pub struct DirNode {
    pub relative: String,
    pub file_name: Option<String>,
    pub is_dir: bool,
    pub is_file: bool,
    pub extension: Option<String>,
    pub children: Vec<DirNode>,
}

/// The entry names a directory entry gives, in walk order: its own name for a
/// `.gpg` file, those of what it holds for a directory other than `.git`, and
/// none otherwise.
pub open spec fn node_entries(n: DirNode) -> Seq<Seq<char>>
    decreases n, 0nat,
{
    match spec_scan_action(n.relative@, option_string_view(n.file_name), n.is_dir, n.is_file, option_string_view(n.extension)) {
        None => Seq::empty(),
        Some(None) => nodes_entries(n.children@, n.children@.len()),
        Some(Some(name)) => seq![name],
    }
}

/// The entry names the first `k` of `ns` give, in order.
pub open spec fn nodes_entries(ns: Seq<DirNode>, k: nat) -> Seq<Seq<char>>
    decreases ns, k,
{
    if k == 0 || k > ns.len() {
        Seq::empty()
    } else {
        nodes_entries(ns, (k - 1) as nat) + node_entries(ns[k - 1])
    }
}

/// The entry names of a directory entry, in walk order.
pub fn walk_node(n: &DirNode) -> (r: Vec<String>)
    ensures
        entry_views(r@) == node_entries(*n),
    decreases *n, 0nat,
{
    match scan_action(n.relative.as_str(), opt_str(&n.file_name), n.is_dir, n.is_file, opt_str(&n.extension)) {
        ScanAction::Skip => {
            let v: Vec<String> = Vec::new();
            assert(entry_views(v@) =~= Seq::<Seq<char>>::empty());
            v
        },
        ScanAction::Descend => walk_nodes(&n.children),
        ScanAction::Entry(name) => {
            let mut v: Vec<String> = Vec::new();
            v.push(name);
            assert(entry_views(v@) =~= seq![v@[0]@]);
            v
        },
    }
}

/// The entry names of the directory entries `ns`, in walk order: what the
/// walk of a store directory lists.
pub fn walk_nodes(ns: &Vec<DirNode>) -> (r: Vec<String>)
    ensures
        entry_views(r@) == nodes_entries(ns@, ns@.len()),
    decreases ns@, 1nat,
{
    let mut out: Vec<String> = Vec::new();
    let mut i: usize = 0;
    assert(entry_views(out@) =~= nodes_entries(ns@, 0));
    while i < ns.len()
        invariant
            i <= ns@.len(),
            entry_views(out@) == nodes_entries(ns@, i as nat),
        decreases ns@.len() - i,
    {
        let mut more = walk_node(&ns[i]);
        let ghost before = entry_views(out@);
        let ghost added = entry_views(more@);
        out.append(&mut more);
        assert(entry_views(out@) =~= before + added);
        i = i + 1;
    }
    out
}

fn opt_str(o: &Option<String>) -> (r: Option<&str>)
    ensures
        match r {
            Some(t) => option_string_view(*o) == Some(t@),
            None => o is None,
        },
{
    match o {
        Some(s) => Some(s.as_str()),
        None => None,
    }
}

fn chars_equal_str_gpg(t: &[char]) -> (r: bool)
    ensures
        r == (t@ == ".gpg"@),
{
    crate::text::chars_equal_str(t, ".gpg")
}

} // verus!
