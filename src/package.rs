//! Bookkeeping of loaded modules, and the host interface through which
//! module files are found and native functions are called.
use vstd::prelude::*;

use crate::text::{chars_eq, chars_of, push_str, string_of};
use crate::value::Value;

verus! {

/// What the embedding program provides: native functions, and module source
/// files. Nothing is assumed of what an implementation returns.
pub trait Host {
    /// Calls the native function registered under `name`.
    fn call_native(&mut self, name: &str, args: Vec<Value>) -> Result<Value, String>;

    /// The source text of module `name`, looked up under the search root
    /// `root`: `None` when no candidate file exists, `Some(Err(..))` when the
    /// first candidate could not be read.
    fn find_module(&mut self, root: &str, name: &str) -> Option<Result<String, String>>;
}

/// Module names that stand for groups of native functions; they load without
/// any file.
pub open spec fn is_builtin(name: Seq<char>) -> bool {
    name == seq!['b', 'a', 's', 'i', 'c'] || name == seq!['r', 'e', 'q', 'u', 'e', 's', 't'] || name
        == seq!['t', 'i', 'm', 'e'] || name == seq!['c', 'o', 'l', 'o', 'r']
}

pub fn builtin_module(name: &str) -> (r: bool)
    ensures
        r == is_builtin(name@),
{
    let cs = chars_of(name);
    chars_eq(cs.as_slice(), &['b', 'a', 's', 'i', 'c']) || chars_eq(
        cs.as_slice(),
        &['r', 'e', 'q', 'u', 'e', 's', 't'],
    ) || chars_eq(cs.as_slice(), &['t', 'i', 'm', 'e']) || chars_eq(
        cs.as_slice(),
        &['c', 'o', 'l', 'o', 'r'],
    )
}

pub open spec fn names_of(v: Seq<String>) -> Seq<Seq<char>> {
    v.map_values(|s: String| s@)
}

/// Tracks which modules are loaded and where module files are looked up.
pub struct PackageManager {
    loaded_packages: Vec<String>,
    require_path: String,
}

/// The model of a package manager: the loaded names and the search root.
pub struct PackagesV {
    pub loaded: Set<Seq<char>>,
    pub root: Seq<char>,
}

impl View for PackageManager {
    type V = PackagesV;

    closed spec fn view(&self) -> PackagesV {
        PackagesV { loaded: names_of(self.loaded_packages@).to_set(), root: self.require_path@ }
    }
}

pub open spec fn not_found_message(name: Seq<char>) -> Seq<char> {
    seq!['M', 'o', 'd', 'u', 'l', 'e', ' ', 'n', 'o', 't', ' ', 'f', 'o', 'u', 'n', 'd', ':', ' ']
        + name
}

pub open spec fn read_failed_message(e: Seq<char>) -> Seq<char> {
    seq![
        'F', 'a', 'i', 'l', 'e', 'd', ' ', 't', 'o', ' ', 'r', 'e', 'a', 'd', ' ', 'm', 'o', 'd', 'u', 'l',
        'e', ' ', 'f', 'i', 'l', 'e', ':', ' ',
    ] + e
}

impl PackageManager {
    /// An empty manager whose search root is the current directory.
    pub fn new() -> (r: Self)
        ensures
            r@.loaded == Set::<Seq<char>>::empty(),
            r@.root == seq!['.', '/'],
    {
        let pm = PackageManager { loaded_packages: Vec::new(), require_path: string_of(&['.', '/']) };
        assert(names_of(pm.loaded_packages@) =~= Seq::<Seq<char>>::empty());
        pm
    }

    /// Sets the root under which module files are looked up.
    pub fn set_require_path(&mut self, path: &str)
        ensures
            final(self)@.root == path@,
            final(self)@.loaded == old(self)@.loaded,
    {
        self.require_path = path.to_owned();
    }

    /// The search root.
    pub fn require_path(&self) -> (r: &str)
        ensures
            r@ == self@.root,
    {
        self.require_path.as_str()
    }

    /// Whether module `package_name` has been loaded.
    pub fn is_package_loaded(&self, package_name: &str) -> (r: bool)
        ensures
            r == self@.loaded.contains(package_name@),
    {
        let mut i: usize = 0;
        while i < self.loaded_packages.len()
            invariant
                i <= self.loaded_packages@.len(),
                forall|j: int| 0 <= j < i ==> self.loaded_packages@[j]@ != package_name@,
            decreases self.loaded_packages@.len() - i,
        {
            if crate::text::str_eq(self.loaded_packages[i].as_str(), package_name) {
                assert(names_of(self.loaded_packages@)[i as int] == package_name@);
                return true;
            }
            i = i + 1;
        }
        proof {
            if names_of(self.loaded_packages@).contains(package_name@) {
                let k = choose|k: int| 0 <= k < names_of(self.loaded_packages@).len() && names_of(self.loaded_packages@)[k] == package_name@;
                assert(self.loaded_packages@[k]@ == package_name@);
            }
        }
        false
    }

    /// Records module `name` as loaded.
    pub fn mark_loaded(&mut self, name: &str)
        ensures
            final(self)@.loaded == old(self)@.loaded.insert(name@),
            final(self)@.root == old(self)@.root,
    {
        if self.is_package_loaded(name) {
            assert(old(self)@.loaded.insert(name@) =~= old(self)@.loaded);
            return;
        }
        let ghost before = names_of(self.loaded_packages@);
        self.loaded_packages.push(name.to_owned());
        assert(names_of(self.loaded_packages@) =~= before.push(name@));
        assert(before.push(name@).to_set() =~= before.to_set().insert(name@)) by {
            assert forall|x: Seq<char>| before.push(name@).contains(x) <==> before.contains(x) || x == name@ by {
                if before.push(name@).contains(x) {
                    let k = choose|k: int| 0 <= k < before.push(name@).len() && before.push(name@)[k] == x;
                    if k < before.len() {
                        assert(before[k] == x);
                    }
                }
                if before.contains(x) {
                    let k = choose|k: int| 0 <= k < before.len() && before[k] == x;
                    assert(before.push(name@)[k] == x);
                }
                if x == name@ {
                    assert(before.push(name@)[before.len() as int] == x);
                }
            }
        }
    }

    /// Loads module `name` given what the host found for its file: no file
    /// gives the not-found message, an unreadable file the read-failure
    /// message (both change nothing); a text is returned and the module
    /// counts as loaded.
    pub fn load_found(&mut self, name: &str, found: Option<Result<String, String>>) -> (r: Result<
        String,
        String,
    >)
        ensures
            match found {
                None => r is Err && r->Err_0@ == not_found_message(name@) && final(self)@ == old(self)@,
                Some(Err(e)) => r is Err && r->Err_0@ == read_failed_message(e@) && final(self)@ == old(
                    self,
                )@,
                Some(Ok(c)) => r is Ok && r->Ok_0@ == c@ && final(self)@.loaded == old(self)@.loaded.insert(
                    name@,
                ) && final(self)@.root == old(self)@.root,
            },
    {
        match found {
            None => {
                let mut m = string_of(
                    &['M', 'o', 'd', 'u', 'l', 'e', ' ', 'n', 'o', 't', ' ', 'f', 'o', 'u', 'n', 'd', ':', ' '],
                );
                push_str(&mut m, name);
                Err(m)
            },
            Some(Err(e)) => {
                let mut m = string_of(
                    &[
                        'F', 'a', 'i', 'l', 'e', 'd', ' ', 't', 'o', ' ', 'r', 'e', 'a', 'd', ' ', 'm', 'o',
                        'd', 'u', 'l', 'e', ' ', 'f', 'i', 'l', 'e', ':', ' ',
                    ],
                );
                push_str(&mut m, e.as_str());
                Err(m)
            },
            Some(Ok(content)) => {
                self.mark_loaded(name);
                Ok(content)
            },
        }
    }

    /// Loads module `package_name`: a loaded module or a built-in group gives
    /// empty text; otherwise the host is asked for the file under the search
    /// root, and `load_found` says what comes of its answer.
    pub fn load_package<H: Host>(&mut self, package_name: &str, host: &mut H) -> (r: Result<
        String,
        String,
    >)
        ensures
            old(self)@.loaded.contains(package_name@) ==> r is Ok && r->Ok_0@.len() == 0
                && final(self)@ == old(self)@,
            is_builtin(package_name@) && !old(self)@.loaded.contains(package_name@) ==> r is Ok
                && r->Ok_0@.len() == 0 && final(self)@.loaded == old(self)@.loaded.insert(package_name@)
                && final(self)@.root == old(self)@.root,
            !old(self)@.loaded.contains(package_name@) && !is_builtin(package_name@) ==> exists|
                found: Option<Result<Seq<char>, Seq<char>>>,
            | #[trigger] found_outcome(old(self)@, final(self)@, package_name@, found, r),
    {
        if self.is_package_loaded(package_name) {
            return Ok(String::new());
        }
        if builtin_module(package_name) {
            self.mark_loaded(package_name);
            return Ok(String::new());
        }
        let found = host.find_module(self.require_path.as_str(), package_name);
        let ghost fv = found_view(found);
        let r = self.load_found(package_name, found);
        assert(found_outcome(old(self)@, self@, package_name@, fv, r));
        r
    }
}

/// The host's answer for a module file, as text.
pub open spec fn found_view(f: Option<Result<String, String>>) -> Option<Result<Seq<char>, Seq<char>>> {
    match f {
        None => None,
        Some(Err(m)) => Some(Err(m@)),
        Some(Ok(t)) => Some(Ok(t@)),
    }
}

/// What loading a module gives for the host's answer about its file.
pub open spec fn found_outcome(
    old: PackagesV,
    new: PackagesV,
    name: Seq<char>,
    found: Option<Result<Seq<char>, Seq<char>>>,
    r: Result<String, String>,
) -> bool {
    match found {
        None => r is Err && r->Err_0@ == not_found_message(name) && new == old,
        Some(Err(e)) => r is Err && r->Err_0@ == read_failed_message(e) && new == old,
        Some(Ok(c)) => r is Ok && r->Ok_0@ == c && new.loaded == old.loaded.insert(name) && new.root == old.root,
    }
}

} // verus!
