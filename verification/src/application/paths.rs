//! The directories the launcher uses.
use vstd::prelude::*;
use crate::text::{copy_text, text_equal};

verus! {

/// A directory path, as the sequence of its components.
#[derive(Debug)]
pub struct DirPath {
    components: Vec<String>,
}

impl View for DirPath {
    type V = Seq<Seq<char>>;

    closed spec fn view(&self) -> Seq<Seq<char>> {
        views_of(self.components@)
    }
}

/// The texts of a sequence of strings.
pub open spec fn views_of(v: Seq<String>) -> Seq<Seq<char>> {
    Seq::new(v.len(), |i: int| v[i]@)
}

pub open spec fn optional_path(p: Option<DirPath>) -> Option<Seq<Seq<char>>> {
    match p {
        Some(d) => Some(d@),
        None => None,
    }
}

impl DirPath {
    pub fn new(components: Vec<String>) -> (p: DirPath)
        ensures
            p@ == views_of(components@),
    {
        DirPath { components }
    }

    pub fn components(&self) -> (c: &Vec<String>)
        ensures
            views_of(c@) == self@,
    {
        &self.components
    }

    /// Both paths have the same components.
    pub fn same_as(&self, other: &DirPath) -> (r: bool)
        ensures
            r == (self@ == other@),
    {
        if self.components.len() != other.components.len() {
            assert(self@.len() != other@.len());
            return false;
        }
        let mut i: usize = 0;
        while i < self.components.len()
            invariant
                self.components@.len() == other.components@.len(),
                i <= self.components@.len(),
                forall|k: int| 0 <= k < i ==> self@[k] == other@[k],
            decreases self.components@.len() - i,
        {
            if !text_equal(self.components[i].as_str(), other.components[i].as_str()) {
                assert(self@[i as int] != other@[i as int]);
                return false;
            }
            i = i + 1;
        }
        assert(self@ =~= other@);
        true
    }

    /// The path of `name` inside this directory.
    pub fn join(&self, name: &str) -> (p: DirPath)
        ensures
            p@ == self@.push(name@),
    {
        let mut components: Vec<String> = Vec::new();
        let mut i: usize = 0;
        while i < self.components.len()
            invariant
                i <= self.components@.len(),
                components@.len() == i,
                views_of(components@) == self@.take(i as int),
            decreases self.components@.len() - i,
        {
            let ghost before = components@;
            let part = self.components[i].clone();
            components.push(part);
            assert forall|j: int| 0 <= j < i + 1 implies #[trigger] views_of(components@)[j]
                == self@.take(i + 1)[j] by {
                if j < i {
                    assert(components@[j] == before[j]);
                    assert(views_of(before)[j] == self@.take(i as int)[j]);
                } else {
                    assert(components@[j] == self.components@[j]);
                }
            }
            assert(views_of(components@) =~= self@.take(i + 1));
            i = i + 1;
        }
        assert(self@.take(i as int) =~= self@);
        let ghost before = components@;
        components.push(copy_text(name));
        assert forall|j: int| 0 <= j < self@.len() + 1 implies #[trigger] views_of(components@)[j]
            == self@.push(name@)[j] by {
            if j < self@.len() {
                assert(components@[j] == before[j]);
                assert(views_of(before)[j] == self@[j]);
            }
        }
        assert(views_of(components@) =~= self@.push(name@));
        DirPath { components }
    }
}

impl Clone for DirPath {
    fn clone(&self) -> (p: Self)
        ensures
            p@ == self@,
    {
        let mut components: Vec<String> = Vec::new();
        let mut i: usize = 0;
        while i < self.components.len()
            invariant
                i <= self.components@.len(),
                components@.len() == i,
                views_of(components@) == self@.take(i as int),
            decreases self.components@.len() - i,
        {
            let ghost before = components@;
            let part = self.components[i].clone();
            components.push(part);
            assert forall|j: int| 0 <= j < i + 1 implies #[trigger] views_of(components@)[j]
                == self@.take(i + 1)[j] by {
                if j < i {
                    assert(components@[j] == before[j]);
                    assert(views_of(before)[j] == self@.take(i as int)[j]);
                } else {
                    assert(components@[j] == self.components@[j]);
                }
            }
            assert(views_of(components@) =~= self@.take(i + 1));
            i = i + 1;
        }
        assert(self@.take(i as int) =~= self@);
        DirPath { components }
    }
}

/// Provides all the paths needed by this application.
pub trait PathsProvider {
    spec fn spec_configuration_directory(&self) -> Seq<Seq<char>>;

    spec fn spec_team_fortress_directory(&self) -> Option<Seq<Seq<char>>>;

    fn get_configuration_directory(&self) -> (p: DirPath)
        ensures
            p@ == self.spec_configuration_directory(),
    ;

    fn get_team_fortress_directory(&self) -> (p: Option<DirPath>)
        ensures
            optional_path(p) == self.spec_team_fortress_directory(),
    ;

    /// `thumbnails` in the configuration directory.
    fn get_thumbnails_directory(&self) -> (p: DirPath)
        ensures
            p@ == self.spec_configuration_directory().push("thumbnails"@),
    {
        self.get_configuration_directory().join("thumbnails")
    }

    /// `tf/custom` in the game's directory, when the game is found.
    fn get_mods_directory(&self) -> (p: Option<DirPath>)
        ensures
            optional_path(p) == match self.spec_team_fortress_directory() {
                Some(d) => Some(d.push("tf"@).push("custom"@)),
                None => None,
            },
    {
        match self.get_team_fortress_directory() {
            Some(directory) => Some(directory.join("tf").join("custom")),
            None => None,
        }
    }
}

/// Provides the paths found on the disk: the application's configuration
/// directory, and the game's directory when Steam knows it.
pub struct DefaultPathsProvider {
    configuration_directory: DirPath,
    team_fortress_directory: Option<DirPath>,
}

impl DefaultPathsProvider {
    pub fn new(configuration_directory: DirPath, team_fortress_directory: Option<DirPath>) -> (p:
        DefaultPathsProvider)
        ensures
            p.spec_configuration_directory() == configuration_directory@,
            p.spec_team_fortress_directory() == optional_path(team_fortress_directory),
    {
        DefaultPathsProvider { configuration_directory, team_fortress_directory }
    }
}

impl PathsProvider for DefaultPathsProvider {
    closed spec fn spec_configuration_directory(&self) -> Seq<Seq<char>> {
        self.configuration_directory@
    }

    closed spec fn spec_team_fortress_directory(&self) -> Option<Seq<Seq<char>>> {
        optional_path(self.team_fortress_directory)
    }

    fn get_configuration_directory(&self) -> (p: DirPath) {
        self.configuration_directory.clone()
    }

    fn get_team_fortress_directory(&self) -> (p: Option<DirPath>) {
        match &self.team_fortress_directory {
            Some(d) => Some(d.clone()),
            None => None,
        }
    }
}

/// Provides paths located in a temporary directory deleted when the application quits.
pub struct TestPathsProvider {
    temporary_directory: DirPath,
}

impl TestPathsProvider {
    pub fn new(temporary_directory: DirPath) -> (p: TestPathsProvider)
        ensures
            p.spec_configuration_directory() == temporary_directory@.push("application_directory"@),
            p.spec_team_fortress_directory() == Some(
                temporary_directory@.push("team_fortress_directory"@),
            ),
    {
        TestPathsProvider { temporary_directory }
    }
}

impl PathsProvider for TestPathsProvider {
    closed spec fn spec_configuration_directory(&self) -> Seq<Seq<char>> {
        self.temporary_directory@.push("application_directory"@)
    }

    closed spec fn spec_team_fortress_directory(&self) -> Option<Seq<Seq<char>>> {
        Some(self.temporary_directory@.push("team_fortress_directory"@))
    }

    fn get_configuration_directory(&self) -> (p: DirPath) {
        self.temporary_directory.join("application_directory")
    }

    fn get_team_fortress_directory(&self) -> (p: Option<DirPath>) {
        Some(self.temporary_directory.join("team_fortress_directory"))
    }
}

} // verus!
