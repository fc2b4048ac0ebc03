//! The configuration of a project: its formatters, in declaration order, and
//! where its file is looked for.

use vstd::prelude::*;
use crate::ordered_map::OrderedMap;
use crate::path::{is_file, join, parent, path_join, path_parent};

verus! {

/// Settings that apply to the whole project.
#[derive(Debug)]
pub struct GlobalConfig {
    pub ignores: Vec<String>,
}

impl Default for GlobalConfig {
    fn default() -> (res: Self)
        ensures
            res.ignores@ == Seq::<String>::empty(),
    {
        GlobalConfig { ignores: Vec::new() }
    }
}

/// One formatter as configured: the program to run, how to run it, and the
/// glob patterns of the files it is meant for.
#[derive(Debug)]
pub struct FormatterConfig {
    pub program: String,
    pub shell: bool,
    pub args: Vec<String>,
    pub env: OrderedMap<String>,
    pub patterns: Vec<String>,
}

/// What a formatter's configuration says, as plain text.
pub struct FormatterSpec {
    pub program: Seq<char>,
    pub shell: bool,
    pub args: Seq<Seq<char>>,
    pub env: Seq<(Seq<char>, Seq<char>)>,
    pub patterns: Seq<Seq<char>>,
}

impl FormatterSpec {
    /// The formatter names a program to run.
    pub open spec fn well_formed(self) -> bool {
        self.program.len() > 0
    }
}

impl View for FormatterConfig {
    type V = FormatterSpec;

    open spec fn view(&self) -> FormatterSpec {
        FormatterSpec {
            program: self.program@,
            shell: self.shell,
            args: self.args.deep_view(),
            env: self.env.deep_view(),
            patterns: self.patterns.deep_view(),
        }
    }
}

impl DeepView for FormatterConfig {
    type V = FormatterSpec;

    open spec fn deep_view(&self) -> FormatterSpec {
        self@
    }
}

/// The parsed configuration file. The formatters are kept in the order in
/// which the file declares them; each name occurs once.
#[derive(Debug)]
pub struct Config {
    pub global: GlobalConfig,
    pub formatters: OrderedMap<FormatterConfig>,
}

/// Every formatter has a name and names a program to run.
pub open spec fn well_formed(formatters: Seq<(Seq<char>, FormatterSpec)>) -> bool {
    forall|i: int|
        0 <= i < formatters.len() ==> (#[trigger] formatters[i]).0.len() > 0
            && formatters[i].1.well_formed()
}

impl Config {
    /// Whether every formatter has a name and names a program to run. That
    /// no name occurs twice, and no variable twice in the environment of a
    /// formatter, holds of every configuration.
    pub fn is_well_formed(&self) -> (res: bool)
        ensures
            res == well_formed(self.formatters.deep_view()),
    {
        let mut i: usize = 0;
        while i < self.formatters.len()
            invariant
                0 <= i <= self.formatters@.len(),
                forall|k: int|
                    0 <= k < i ==> (#[trigger] self.formatters.deep_view()[k]).0.len() > 0
                        && self.formatters.deep_view()[k].1.well_formed(),
            decreases self.formatters@.len() - i,
        {
            let name = self.formatters.key(i);
            let formatter = self.formatters.value(i);
            assert(self.formatters.deep_view()[i as int].0 == name@);
            assert(self.formatters.deep_view()[i as int].1 == formatter@);
            if name.as_str().is_empty() || formatter.program.as_str().is_empty() {
                return false;
            }
            i += 1;
        }
        true
    }

    /// The names a configuration file may have, the preferred one first.
    pub open spec fn file_names() -> Seq<Seq<char>> {
        seq![".forestry.toml"@, "forestry.toml"@]
    }

    /// `file` is what joining `dir` with one of the configuration file names
    /// gives.
    pub open spec fn names_config_file(dir: Seq<char>, file: Seq<char>) -> bool {
        exists|i: int|
            0 <= i < Self::file_names().len() && file == path_join(
                dir,
                #[trigger] Self::file_names()[i],
            )
    }

    /// The directory reached from `dir` by taking the parent `steps` times,
    /// if the chain of parents is that long.
    pub open spec fn ancestor(dir: Seq<char>, steps: nat) -> Option<Seq<char>>
        decreases steps,
    {
        if steps == 0 {
            Some(dir)
        } else {
            match Self::ancestor(dir, (steps - 1) as nat) {
                Some(below) => path_parent(below),
                None => None,
            }
        }
    }

    /// `root` is `dir` itself or one of the directories above it.
    pub open spec fn is_self_or_ancestor(dir: Seq<char>, root: Seq<char>) -> bool {
        exists|steps: nat| #[trigger] Self::ancestor(dir, steps) == Some(root)
    }

    /// The number of configuration file names.
    pub fn file_name_count() -> (res: usize)
        ensures
            res == Self::file_names().len(),
    {
        2
    }

    /// The configuration file name of the given priority, `0` the highest.
    pub fn file_name(index: usize) -> (res: &'static str)
        requires
            index < Self::file_names().len(),
        ensures
            res@ == Self::file_names()[index as int],
    {
        if index == 0 {
            ".forestry.toml"
        } else {
            "forestry.toml"
        }
    }

    /// Given for each candidate, in order of priority, whether it is present:
    /// the position of the one to use. That is the first present one.
    pub fn first_present(present: &Vec<bool>) -> (res: Option<usize>)
        ensures
            match res {
                Some(i) => i < present@.len() && present@[i as int] && forall|j: int|
                    0 <= j < i ==> !#[trigger] present@[j],
                None => forall|j: int| 0 <= j < present@.len() ==> !#[trigger] present@[j],
            },
    {
        let mut i: usize = 0;
        while i < present.len()
            invariant
                0 <= i <= present.len(),
                forall|j: int| 0 <= j < i ==> !#[trigger] present@[j],
            decreases present.len() - i,
        {
            if present[i] {
                return Some(i);
            }
            i += 1;
        }
        None
    }

    /// The paths a configuration file of `dir` may have, the preferred one
    /// first.
    pub fn candidates(dir: &str) -> (res: Vec<String>)
        ensures
            res@.len() == Self::file_names().len(),
            forall|i: int|
                0 <= i < res@.len() ==> (#[trigger] res@[i])@ == path_join(
                    dir@,
                    Self::file_names()[i],
                ),
    {
        let mut paths: Vec<String> = Vec::new();
        let mut i: usize = 0;
        while i < Self::file_name_count()
            invariant
                0 <= i <= Self::file_names().len(),
                paths@.len() == i,
                forall|k: int|
                    0 <= k < i ==> (#[trigger] paths@[k])@ == path_join(
                        dir@,
                        Self::file_names()[k],
                    ),
            decreases Self::file_names().len() - i,
        {
            paths.push(join(dir, Self::file_name(i)));
            i += 1;
        }
        paths
    }

    /// The directory itself and the directories above it, nearest first, up
    /// to the one that has no parent.
    pub fn ancestors(dir: &str) -> (res: Vec<String>)
        ensures
            res@.len() >= 1,
            forall|k: int|
                0 <= k < res@.len() ==> Self::ancestor(dir@, k as nat) == Some(
                    (#[trigger] res@[k])@,
                ),
            Self::ancestor(dir@, res@.len() as nat) is None,
    {
        let mut chain: Vec<String> = Vec::new();
        chain.push(dir.to_owned());
        let mut above = parent(dir);
        while above.is_some()
            invariant
                chain@.len() >= 1,
                forall|k: int|
                    0 <= k < chain@.len() ==> Self::ancestor(dir@, k as nat) == Some(
                        (#[trigger] chain@[k])@,
                    ),
                match above {
                    Some(p) => path_parent(chain@[chain@.len() - 1]@) == Some(p@) && p@.len()
                        < chain@[chain@.len() - 1]@.len(),
                    None => path_parent(chain@[chain@.len() - 1]@) is None,
                },
            decreases
                    (match above {
                        Some(p) => p@.len() + 1,
                        None => 0,
                    }),
        {
            let next = above.unwrap();
            let further = parent(next.as_str());
            chain.push(next);
            above = further;
        }
        chain
    }

    /// Returns the path to a config file in the given directory, or `None`
    /// if the directory holds none. Which of the candidates exist as files
    /// is asked of the file system; of those that do, the one of highest
    /// priority is returned, as [`Config::preferred`] picks it.
    pub fn check_dir(dir: &str) -> (res: Option<String>)
        ensures
            res matches Some(file) ==> Self::names_config_file(dir@, file@),
    {
        let candidates = Self::candidates(dir);
        let mut present: Vec<bool> = Vec::new();
        let mut i: usize = 0;
        while i < candidates.len()
            invariant
                0 <= i <= candidates.len(),
                present@.len() == i,
            decreases candidates.len() - i,
        {
            present.push(is_file(candidates[i].as_str()));
            i += 1;
        }
        Self::preferred(&candidates, &present)
    }

    /// Finds the config file in the given directory or, failing that, in the
    /// nearest directory above it that holds one. Returns that directory and
    /// the path of the file, or `None` if no directory up to the root holds
    /// a config file.
    ///
    /// The directories are asked nearest first, and none after the first
    /// that holds a file; [`Config::nearest`] picks the place of the file.
    pub fn find(dir: &str) -> (res: Option<(String, String)>)
        ensures
            res matches Some((root, file)) ==> Self::is_self_or_ancestor(dir@, root@)
                && Self::names_config_file(root@, file@),
    {
        let chain = Self::ancestors(dir);
        let mut found: Vec<Option<String>> = Vec::new();
        let mut searching: bool = true;
        while searching && found.len() < chain.len()
            invariant
                found@.len() <= chain@.len(),
                forall|n: int|
                    0 <= n < found@.len() && (#[trigger] found@[n]) is Some
                        ==> Self::names_config_file(chain@[n]@, found@[n]->0@),
            decreases chain@.len() - found@.len(),
        {
            let checked = Self::check_dir(chain[found.len()].as_str());
            searching = checked.is_none();
            found.push(checked);
        }
        let res = Self::nearest(&chain, &found);
        proof {
            if res is Some {
                let place = res->0;
                let k: int = choose|k: int| #[trigger]
                    Self::is_first_found(found@, k) && k < chain@.len() && place.0@ == chain@[k]@
                        && place.1@ == found@[k]->0@;
                assert(Self::ancestor(dir@, k as nat) == Some(place.0@));
            }
        }
        res
    }

    /// `index` is the position of the first candidate that is present.
    pub open spec fn is_first_present(present: Seq<bool>, index: int) -> bool {
        &&& 0 <= index < present.len()
        &&& present[index]
        &&& forall|j: int| 0 <= j < index ==> !#[trigger] present[j]
    }

    /// Given the candidates in order of priority and, for each, whether it
    /// exists as a file: the candidate to use. That is the first one that
    /// exists; there is none if no candidate exists.
    pub fn preferred(candidates: &Vec<String>, present: &Vec<bool>) -> (res: Option<String>)
        ensures
            match res {
                Some(file) => exists|i: int| #[trigger]
                    Self::is_first_present(present@, i) && i < candidates@.len() && file@
                        == candidates@[i]@,
                None => forall|i: int| #[trigger]
                    Self::is_first_present(present@, i) ==> i >= candidates@.len(),
            },
    {
        match Self::first_present(present) {
            Some(i) => {
                assert(Self::is_first_present(present@, i as int));
                if i < candidates.len() {
                    Some(candidates[i].clone())
                } else {
                    assert forall|n: int| #[trigger]
                        Self::is_first_present(present@, n) implies n >= candidates@.len() by {
                        if n < i {
                            assert(!present@[n]);
                        } else if n > i {
                            assert(!present@[i as int]);
                        }
                    }
                    None
                }
            },
            None => None,
        }
    }

    /// `index` is the position of the first directory that answered with a
    /// file.
    pub open spec fn is_first_found(found: Seq<Option<String>>, index: int) -> bool {
        &&& 0 <= index < found.len()
        &&& found[index] is Some
        &&& forall|j: int| 0 <= j < index ==> (#[trigger] found[j]) is None
    }

    /// Given the directories of a search, nearest first, and what each of
    /// them answered, as far as they were asked: the place of the
    /// configuration file. That is the first directory that answered with a
    /// file, together with that file; there is none if none did.
    pub fn nearest(chain: &Vec<String>, found: &Vec<Option<String>>) -> (res: Option<
        (String, String),
    >)
        ensures
            match res {
                Some(place) => exists|k: int| #[trigger]
                    Self::is_first_found(found@, k) && k < chain@.len() && place.0@ == chain@[k]@
                        && place.1@ == found@[k]->0@,
                None => forall|k: int| #[trigger]
                    Self::is_first_found(found@, k) ==> k >= chain@.len(),
            },
    {
        let mut k: usize = 0;
        while k < found.len() && k < chain.len()
            invariant
                0 <= k <= found@.len(),
                k <= chain@.len(),
                forall|j: int| 0 <= j < k ==> (#[trigger] found@[j]) is None,
            decreases found@.len() - k,
        {
            match &found[k] {
                Some(file) => {
                    assert(Self::is_first_found(found@, k as int));
                    return Some((chain[k].clone(), file.clone()));
                },
                None => {},
            }
            k += 1;
        }
        assert forall|n: int| #[trigger] Self::is_first_found(found@, n) implies n
            >= chain@.len() by {
            if n < k {
                assert(found@[n] is None);
            }
        }
        None
    }
}

} // verus!
