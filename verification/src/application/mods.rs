//! The mods the launcher knows of: where each comes from, and where it is
//! installed in the game's directory.
use vstd::prelude::*;
use crate::application::paths::DirPath;
use crate::keys::{lemma_text_model_injective, text_codes, text_model};
use crate::ordered_map::{OrderedKey, OrderedMap};
use crate::text::copy_text;
use crate::time::Instant;

verus! {

/// The name of a mod.
#[derive(Debug)]
pub struct ModName {
    name: String,
}

impl View for ModName {
    type V = Seq<char>;

    closed spec fn view(&self) -> Seq<char> {
        self.name@
    }
}

impl Clone for ModName {
    fn clone(&self) -> (r: Self)
        ensures
            r@ == self@,
    {
        ModName { name: self.name.clone() }
    }
}

impl ModName {
    pub fn new(name: &str) -> (r: ModName)
        ensures
            r@ == name@,
    {
        ModName { name: copy_text(name) }
    }

    pub fn as_str(&self) -> (r: &str)
        ensures
            r@ == self@,
    {
        self.name.as_str()
    }
}

impl OrderedKey for ModName {
    open spec fn key_model(&self) -> Seq<u32> {
        text_model(self@)
    }

    fn key_code(&self) -> (r: Vec<u32>) {
        text_codes(self.name.as_str())
    }
}

/// Where a mod is downloaded from.
#[derive(Debug)]
pub enum Source {
    /// Nowhere known: the mod was found installed.
    Unknown,
    DownloadUrl(String),
}

pub enum SourceView {
    Unknown,
    DownloadUrl(Seq<char>),
}

impl View for Source {
    type V = SourceView;

    open spec fn view(&self) -> SourceView {
        match self {
            Source::Unknown => SourceView::Unknown,
            Source::DownloadUrl(url) => SourceView::DownloadUrl(url@),
        }
    }
}

impl Clone for Source {
    fn clone(&self) -> (r: Self)
        ensures
            r@ == self@,
    {
        match self {
            Source::Unknown => Source::Unknown,
            Source::DownloadUrl(url) => Source::DownloadUrl(url.clone()),
        }
    }
}

/// A mod package found in the mods directory.
#[derive(Debug)]
pub struct PackageEntry {
    pub name: ModName,
    pub path: DirPath,
}

pub struct PackageEntryView {
    pub name: Seq<char>,
    pub path: Seq<Seq<char>>,
}

impl View for PackageEntry {
    type V = PackageEntryView;

    open spec fn view(&self) -> PackageEntryView {
        PackageEntryView { name: self.name@, path: self.path@ }
    }
}

impl Clone for PackageEntry {
    fn clone(&self) -> (r: Self)
        ensures
            r@ == self@,
    {
        PackageEntry { name: self.name.clone(), path: self.path.clone() }
    }
}

/// Whether a mod is installed, and when and where.
#[derive(Debug)]
pub enum Install {
    NotInstalled,
    Installed { package: PackageEntry, installed: Instant },
}

pub enum InstallView {
    NotInstalled,
    Installed { package: PackageEntryView, installed: nat },
}

impl View for Install {
    type V = InstallView;

    open spec fn view(&self) -> InstallView {
        match self {
            Install::NotInstalled => InstallView::NotInstalled,
            Install::Installed { package, installed } => InstallView::Installed {
                package: package@,
                installed: installed@,
            },
        }
    }
}

impl Clone for Install {
    fn clone(&self) -> (r: Self)
        ensures
            r@ == self@,
    {
        match self {
            Install::NotInstalled => Install::NotInstalled,
            Install::Installed { package, installed } => Install::Installed {
                package: package.clone(),
                installed: *installed,
            },
        }
    }
}

impl Install {
    /// The package, installed at the current time.
    pub fn installed_now(package: PackageEntry) -> (r: Install)
        ensures
            r@ matches InstallView::Installed { package: p, .. } && p == package@,
    {
        Install::Installed { package, installed: Instant::now() }
    }

    pub fn is_installed(&self) -> (r: bool)
        ensures
            r == (self@ is Installed),
    {
        match self {
            Install::NotInstalled => false,
            Install::Installed { .. } => true,
        }
    }
}

/// What the launcher knows of a mod.
#[derive(Debug)]
pub struct ModInfo {
    pub name: ModName,
    pub source: Source,
    pub install: Install,
}

pub struct ModInfoView {
    pub name: Seq<char>,
    pub source: SourceView,
    pub install: InstallView,
}

impl View for ModInfo {
    type V = ModInfoView;

    open spec fn view(&self) -> ModInfoView {
        ModInfoView { name: self.name@, source: self.source@, install: self.install@ }
    }
}

impl Clone for ModInfo {
    fn clone(&self) -> (r: Self)
        ensures
            r@ == self@,
    {
        ModInfo { name: self.name.clone(), source: self.source.clone(), install: self.install.clone() }
    }
}

/// The texts of some mod names.
pub open spec fn name_views(names: Seq<ModName>) -> Seq<Seq<char>> {
    names.map_values(|n: ModName| n@)
}

/// The registry after each of `names` was added from `source`, in order.
pub open spec fn mods_added(
    registry: Map<Seq<u32>, ModInfoView>,
    names: Seq<Seq<char>>,
    source: SourceView,
) -> Map<Seq<u32>, ModInfoView>
    decreases names.len(),
{
    if names.len() == 0 {
        registry
    } else {
        mods_added(registry, names.drop_last(), source).insert(
            text_model(names.last()),
            ModInfoView { name: names.last(), source, install: InstallView::NotInstalled },
        )
    }
}

/// The registry after the package `entry` was found installed, at time `now`:
/// an unknown mod is added, with no known source; a known mod installed at
/// another place is now installed at the package's place; else nothing changes.
pub open spec fn package_found(
    registry: Map<Seq<u32>, ModInfoView>,
    entry: PackageEntryView,
    now: nat,
) -> Map<Seq<u32>, ModInfoView> {
    let key = text_model(entry.name);
    let installed = InstallView::Installed { package: entry, installed: now };
    if registry.contains_key(key) {
        match registry[key].install {
            InstallView::Installed { package, .. } => if package.path != entry.path {
                registry.insert(key, ModInfoView { install: installed, ..registry[key] })
            } else {
                registry
            },
            InstallView::NotInstalled => registry,
        }
    } else {
        registry.insert(key, ModInfoView { name: entry.name, source: SourceView::Unknown, install: installed })
    }
}

/// The registry after the packages were found installed, in order, the clock
/// reading `times[i]` when the i-th one was recorded.
pub open spec fn packages_found(
    registry: Map<Seq<u32>, ModInfoView>,
    packages: Seq<PackageEntryView>,
    times: Seq<nat>,
) -> Map<Seq<u32>, ModInfoView>
    decreases packages.len(),
{
    if packages.len() == 0 {
        registry
    } else {
        package_found(
            packages_found(registry, packages.drop_last(), times.take(packages.len() - 1)),
            packages.last(),
            times[packages.len() - 1],
        )
    }
}

/// The views of some packages.
pub open spec fn package_views(packages: Seq<PackageEntry>) -> Seq<PackageEntryView> {
    packages.map_values(|p: PackageEntry| p@)
}

/// The mods known, each under its name.
pub struct Registry {
    mods: OrderedMap<ModName, ModInfo>,
}

impl View for Registry {
    /// Each mod's information, under the sort codes of its name.
    type V = Map<Seq<u32>, ModInfoView>;

    closed spec fn view(&self) -> Map<Seq<u32>, ModInfoView> {
        Map::new(|m: Seq<u32>| self.mods.contains(m), |m: Seq<u32>| self.mods.value_of(m)@)
    }
}

impl Registry {
    /// The entries are in order, and each is filed under its own name.
    pub closed spec fn wf(&self) -> bool {
        &&& self.mods.wf()
        &&& forall|i: int| 0 <= i < self.mods.key_seq().len() ==> (#[trigger] self.mods.value_seq()[i]).name@
            == self.mods.key_seq()[i]@
    }

    pub fn new() -> (r: Registry)
        ensures
            r.wf(),
            r@ == Map::<Seq<u32>, ModInfoView>::empty(),
    {
        let r = Registry { mods: OrderedMap::new() };
        assert(r@ =~= Map::<Seq<u32>, ModInfoView>::empty());
        r
    }

    pub fn len(&self) -> (n: usize)
        requires
            self.wf(),
        ensures
            n == self@.len(),
    {
        proof {
            self.lemma_len();
        }
        self.mods.len()
    }

    proof fn lemma_len(&self)
        requires
            self.wf(),
        ensures
            self@.dom().finite(),
            self@.len() == self.mods.key_seq().len(),
    {
        let models = self.mods.models();
        assert(self@.dom() =~= models.to_set());
        assert(models.no_duplicates()) by {
            assert forall|a: int, b: int| 0 <= a < models.len() && 0 <= b < models.len() && a != b implies
                models[a] != models[b] by {
                self.mods.lemma_index(a);
                self.mods.lemma_index(b);
            }
        }
        models.unique_seq_to_set();
    }

    /// The mod at position `i`, the mods being in the order of their names.
    pub fn info_at(&self, i: usize) -> (r: &ModInfo)
        requires
            self.wf(),
            i < self@.len(),
        ensures
            self@.contains_key(r.name.key_model()),
            self@[r.name.key_model()] == r@,
    {
        proof {
            self.lemma_len();
            self.mods.lemma_index(i as int);
        }
        self.mods.value_at(i)
    }

    pub fn get(&self, name: &ModName) -> (r: Option<&ModInfo>)
        requires
            self.wf(),
        ensures
            r is Some <==> self@.contains_key(name.key_model()),
            r matches Some(info) ==> info@ == self@[name.key_model()],
    {
        match self.mods.position(name) {
            Some(i) => {
                proof {
                    self.mods.lemma_index(i as int);
                }
                Some(self.mods.value_at(i))
            },
            None => None,
        }
    }

    /// Records the mod `name`, from `source` and not installed, in place of
    /// what was known of it.
    pub fn add(&mut self, name: ModName, source: Source)
        requires
            old(self).wf(),
        ensures
            final(self).wf(),
            final(self)@ == old(self)@.insert(
                name.key_model(),
                ModInfoView { name: name@, source: source@, install: InstallView::NotInstalled },
            ),
    {
        let info = ModInfo { name: name.clone(), source, install: Install::NotInstalled };
        let ghost iv = info@;
        self.mods.insert(name, info);
        proof {
            self.lemma_view_after(&old(self).mods, name.key_model(), Some(iv));
        }
    }

    /// Sets how the mod `name` is installed, when it is known.
    pub fn set_install(&mut self, name: &ModName, install: Install)
        requires
            old(self).wf(),
        ensures
            final(self).wf(),
            final(self)@ == if old(self)@.contains_key(name.key_model()) {
                old(self)@.insert(
                    name.key_model(),
                    ModInfoView { install: install@, ..old(self)@[name.key_model()] },
                )
            } else {
                old(self)@
            },
    {
        match self.mods.position(name) {
            Some(i) => {
                proof {
                    self.mods.lemma_index(i as int);
                }
                let old_info = self.mods.value_at(i);
                let info = ModInfo { name: old_info.name.clone(), source: old_info.source.clone(), install };
                let ghost iv = info@;
                self.mods.set_value_at(i, info);
                proof {
                    self.lemma_view_after(&old(self).mods, name.key_model(), Some(iv));
                }
            },
            None => {},
        }
    }

    /// Forgets the mod `name`, giving back what was known of it.
    pub fn remove(&mut self, name: &ModName) -> (r: Option<ModInfo>)
        requires
            old(self).wf(),
        ensures
            final(self).wf(),
            final(self)@ == old(self)@.remove(name.key_model()),
            r is Some <==> old(self)@.contains_key(name.key_model()),
            r matches Some(info) ==> info@ == old(self)@[name.key_model()],
    {
        match self.mods.position(name) {
            Some(i) => {
                proof {
                    self.mods.lemma_index(i as int);
                }
                let (_, info) = self.mods.remove_at(i);
                proof {
                    self.lemma_view_after(&old(self).mods, name.key_model(), None);
                }
                Some(info)
            },
            None => {
                assert(old(self)@.remove(name.key_model()) =~= old(self)@);
                None
            },
        }
    }

    /// Adds each of `names` from `source`, in order.
    pub fn add_all(&mut self, source: &Source, names: Vec<ModName>)
        requires
            old(self).wf(),
        ensures
            final(self).wf(),
            final(self)@ == mods_added(old(self)@, name_views(names@), source@),
    {
        let ghost views = name_views(names@);
        let mut i: usize = 0;
        for name in it: names
            invariant
                self.wf(),
                views == name_views(it.seq()),
                self@ == mods_added(old(self)@, views.take(it.index() as int), source@),
        {
            let ghost k = it.index();
            let ghost before = self@;
            self.add(name, source.clone());
            proof {
                assert(views.take(k + 1).drop_last() =~= views.take(k as int));
                assert(views.take(k + 1).last() == views[k as int]);
            }
        }
        proof {
            assert(views.take(views.len() as int) =~= views);
        }
    }

    /// Records the packages found installed, in order.
    pub fn record_found(&mut self, packages: Vec<PackageEntry>)
        requires
            old(self).wf(),
        ensures
            final(self).wf(),
            exists|times: Seq<nat>| times.len() == packages@.len()
                && final(self)@ == packages_found(old(self)@, package_views(packages@), times),
    {
        let ghost views = package_views(packages@);
        let ghost mut times: Seq<nat> = Seq::empty();
        for entry in it: packages
            invariant
                self.wf(),
                views == package_views(it.seq()),
                times.len() == it.index(),
                self@ == packages_found(old(self)@, views.take(it.index() as int), times),
        {
            let ghost k = it.index();
            let ghost before = self@;
            let ghost entry_view = entry@;
            let key = entry.name.clone();
            let mut to_set: Option<PackageEntry> = None;
            match self.get(&key) {
                Some(info) => {
                    match &info.install {
                        Install::Installed { package, .. } => {
                            if !package.path.same_as(&entry.path) {
                                to_set = Some(entry);
                            }
                        },
                        Install::NotInstalled => {},
                    }
                },
                None => {
                    self.add(entry.name.clone(), Source::Unknown);
                    to_set = Some(entry);
                },
            }
            let ghost mut now: nat = 0;
            match to_set {
                Some(found) => {
                    let install = Install::installed_now(found);
                    proof {
                        now = install@->installed;
                    }
                    self.set_install(&key, install);
                },
                None => {},
            }
            proof {
                let t = times.push(now);
                assert(views.take(k + 1).drop_last() =~= views.take(k as int));
                assert(views.take(k + 1).last() == entry_view);
                assert(t.take(k as int) =~= times);
                assert(self@ =~= package_found(before, entry_view, now));
                times = t;
            }
        }
        proof {
            assert(views.take(views.len() as int) =~= views);
        }
    }

    /// After one entry of the map changed, the view changed at that key alone,
    /// and each entry is still filed under its own name.
    proof fn lemma_view_after(&self, before: &OrderedMap<ModName, ModInfo>, m: Seq<u32>, entry: Option<ModInfoView>)
        requires
            self.mods.wf(),
            before.wf(),
            forall|i: int| 0 <= i < before.key_seq().len() ==> (#[trigger] before.value_seq()[i]).name@
                == before.key_seq()[i]@,
            entry matches Some(e) ==> text_model(e.name) == m,
            self.mods.to_map() == match entry {
                Some(_) => before.to_map().insert(m, self.mods.to_map()[m]),
                None => before.to_map().remove(m),
            },
            entry matches Some(e) ==> self.mods.to_map()[m]@ == e,
        ensures
            forall|i: int| 0 <= i < self.mods.key_seq().len() ==> (#[trigger] self.mods.value_seq()[i]).name@
                == self.mods.key_seq()[i]@,
            self@ == match entry {
                Some(e) => (Registry { mods: *before })@.insert(m, e),
                None => (Registry { mods: *before })@.remove(m),
            },
    {
        let old_view = (Registry { mods: *before })@;
        assert forall|i: int| 0 <= i < self.mods.key_seq().len() implies (#[trigger] self.mods.value_seq()[i]).name@
            == self.mods.key_seq()[i]@ by {
            self.mods.lemma_index(i);
            let k = self.mods.models()[i];
            assert(self.mods.to_map().dom().contains(k));
            if k == m {
                let e = entry->0;
                lemma_text_model_injective(e.name, self.mods.key_seq()[i]@);
            } else {
                assert(before.to_map().dom().contains(k));
                let j = before.models().index_of(k);
                before.lemma_index(j);
                lemma_text_model_injective(before.key_seq()[j]@, self.mods.key_seq()[i]@);
            }
        }
        assert forall|k: Seq<u32>| #[trigger] self.mods.contains(k) == self.mods.to_map().dom().contains(k) by {}
        assert forall|k: Seq<u32>| #[trigger] before.contains(k) == before.to_map().dom().contains(k) by {}
        assert forall|k: Seq<u32>| k != m && #[trigger] self.mods.contains(k) implies self.mods.value_of(k)
            == before.value_of(k) by {
            assert(self.mods.to_map()[k] == before.to_map()[k]);
        }
        match entry {
            Some(e) => {
                assert(self.mods.value_of(m)@ == e);
                assert(self@ =~= old_view.insert(m, e));
            },
            None => {
                assert(self@ =~= old_view.remove(m));
            },
        }
    }
}

} // verus!
