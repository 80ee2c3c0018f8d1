//! The cache of map thumbnails, kept as the images' bytes by map name.
use vstd::prelude::*;
use crate::application::map::MapName;
use crate::application::paths::DirPath;
use crate::time::Duration;
use crate::keys::key_lt;
use crate::ordered_map::{OrderedKey, OrderedMap};

verus! {

/// Why the cache could not be read or written.
#[derive(Debug)]
pub enum ThumbnailCacheError {
    InvalidDirectoryPath(DirPath),
    IoFailure(String),
}

pub struct ThumbnailCache {
    directory_path: DirPath,
    cache: OrderedMap<MapName, Vec<u8>>,
}

/// How the request for a map's thumbnail ended.
#[derive(Debug)]
pub enum ThumbnailFetch {
    Fetched(Vec<u8>),
    /// The service refused the request: too many were made; with the error's text.
    TooManyAttempts(String),
    /// Another failure, with the error's text.
    Failed(String),
}

/// What the thumbnail service reports after a request, and what it does next.
#[derive(Debug)]
pub struct ThumbnailAnswer {
    /// The map with its image, or the map with why it has none.
    pub report: Result<(MapName, Vec<u8>), (MapName, String)>,
    /// The map to ask for again.
    pub retry: Option<MapName>,
    /// How long to wait before the next request.
    pub wait: Option<Duration>,
}

/// The wait after the service refused a request for too many attempts: a minute.
pub open spec fn wait_after_too_many() -> nat {
    60_000_000_000
}

/// The wait after another failure: five seconds.
pub open spec fn wait_after_failure() -> nat {
    5_000_000_000
}

/// The answer to a request for the thumbnail of `map_name`: an image is
/// reported; a failure is reported, the map is asked for again, and the
/// service waits a minute when it made too many attempts, five seconds else.
pub fn thumbnail_fetched(map_name: MapName, outcome: ThumbnailFetch) -> (r: ThumbnailAnswer)
    ensures
        match outcome {
            ThumbnailFetch::Fetched(image) => r.report == Ok::<(MapName, Vec<u8>), (MapName, String)>((map_name, image))
                && r.retry is None && r.wait is None,
            ThumbnailFetch::TooManyAttempts(error) => r.report == Err::<(MapName, Vec<u8>), (MapName, String)>(
                (map_name, error),
            ) && r.retry == Some(map_name) && (r.wait matches Some(d) && d@ == wait_after_too_many()),
            ThumbnailFetch::Failed(error) => r.report == Err::<(MapName, Vec<u8>), (MapName, String)>((map_name, error))
                && r.retry == Some(map_name) && (r.wait matches Some(d) && d@ == wait_after_failure()),
        },
{
    match outcome {
        ThumbnailFetch::Fetched(image) => ThumbnailAnswer { report: Ok((map_name, image)), retry: None, wait: None },
        ThumbnailFetch::TooManyAttempts(error) => ThumbnailAnswer {
            retry: Some(map_name.clone()),
            report: Err((map_name, error)),
            wait: Some(Duration::from_secs(60)),
        },
        ThumbnailFetch::Failed(error) => ThumbnailAnswer {
            retry: Some(map_name.clone()),
            report: Err((map_name, error)),
            wait: Some(Duration::from_secs(5)),
        },
    }
}

/// A copy of some bytes.
pub fn copy_bytes(bytes: &Vec<u8>) -> (r: Vec<u8>)
    ensures
        r@ == bytes@,
{
    let r = bytes.clone();
    assert(r@ =~= bytes@);
    r
}

/// The total size of the first `k` images.
pub open spec fn prefix_bytes(images: Seq<Vec<u8>>, k: int) -> nat
    decreases k,
{
    if k <= 0 {
        0
    } else {
        prefix_bytes(images, k - 1) + images[k - 1]@.len()
    }
}

/// How many images, in map order, are written under a limit of `max_bytes`
/// (none when zero): images are written until the bytes written reach it.
pub open spec fn is_written_count(images: Seq<Vec<u8>>, max_bytes: nat, k: int) -> bool {
    &&& 0 <= k <= images.len()
    &&& (max_bytes == 0 ==> k == images.len())
    &&& (max_bytes > 0 ==> (k == images.len() || prefix_bytes(images, k) >= max_bytes) && forall|j: int|
        0 <= j < k ==> #[trigger] prefix_bytes(images, j) < max_bytes)
}

impl ThumbnailCache {
    pub closed spec fn wf(&self) -> bool {
        self.cache.wf()
    }

    /// The cached images by map name model.
    pub closed spec fn images(&self) -> Map<Seq<u32>, Seq<u8>> {
        Map::new(
            |m: Seq<u32>| self.cache.to_map().dom().contains(m),
            |m: Seq<u32>| self.cache.to_map()[m]@,
        )
    }

    /// The map names, in ascending order, and their images.
    pub closed spec fn map_seq(&self) -> Seq<MapName> {
        self.cache.key_seq()
    }

    pub closed spec fn image_seq(&self) -> Seq<Vec<u8>> {
        self.cache.value_seq()
    }

    pub closed spec fn directory(&self) -> Seq<Seq<char>> {
        self.directory_path@
    }

    /// The images come in the ascending order of their map names, each name
    /// once, with the image the cache holds for it; every cached image is there.
    pub open spec fn in_map_order(&self) -> bool {
        &&& self.map_seq().len() == self.image_seq().len()
        &&& forall|i: int, j: int| 0 <= i < j < self.map_seq().len() ==> key_lt(
            #[trigger] self.map_seq()[i].key_model(),
            #[trigger] self.map_seq()[j].key_model(),
        )
        &&& forall|i: int| 0 <= i < self.map_seq().len() ==> self.images().dom().contains(
            #[trigger] self.map_seq()[i].key_model(),
        ) && self.images()[self.map_seq()[i].key_model()] == self.image_seq()[i]@
        &&& forall|m: Seq<u32>| #[trigger] self.images().dom().contains(m) ==> exists|i: int|
            0 <= i < self.map_seq().len() && self.map_seq()[i].key_model() == m
    }

    /// A well-formed cache lists its images in map order.
    pub proof fn lemma_in_map_order(&self)
        requires
            self.wf(),
        ensures
            self.in_map_order(),
    {
        assert forall|i: int, j: int| 0 <= i < j < self.map_seq().len() implies key_lt(
            #[trigger] self.map_seq()[i].key_model(),
            #[trigger] self.map_seq()[j].key_model(),
        ) by {
            assert(self.cache.models()[i] == self.cache.key_seq()[i].key_model());
            assert(self.cache.models()[j] == self.cache.key_seq()[j].key_model());
        }
        assert forall|i: int| 0 <= i < self.map_seq().len() implies self.images().dom().contains(
            #[trigger] self.map_seq()[i].key_model(),
        ) && self.images()[self.map_seq()[i].key_model()] == self.image_seq()[i]@ by {
            self.cache.lemma_index(i);
            assert(self.cache.models()[i] == self.cache.key_seq()[i].key_model());
        }
        assert forall|m: Seq<u32>| #[trigger] self.images().dom().contains(m) implies exists|i: int|
            0 <= i < self.map_seq().len() && self.map_seq()[i].key_model() == m by {
            assert(self.cache.to_map().dom().contains(m));
            assert(self.cache.models().contains(m));
            let i = self.cache.models().index_of(m);
            assert(self.cache.models()[i] == m);
            assert(self.cache.models()[i] == self.cache.key_seq()[i].key_model());
            assert(self.map_seq()[i].key_model() == m);
        }
    }

    pub fn new(directory_path: DirPath) -> (c: ThumbnailCache)
        ensures
            c.wf(),
            c.directory() == directory_path@,
            c.images() == Map::<Seq<u32>, Seq<u8>>::empty(),
    {
        let c = ThumbnailCache { directory_path, cache: OrderedMap::new() };
        assert(c.images() =~= Map::<Seq<u32>, Seq<u8>>::empty());
        c
    }

    pub fn directory_path(&self) -> (p: &DirPath)
        ensures
            p@ == self.directory(),
    {
        &self.directory_path
    }

    /// The image cached for a map.
    pub fn get(&self, map_name: &MapName) -> (r: Option<Vec<u8>>)
        requires
            self.wf(),
        ensures
            r is Some <==> self.images().dom().contains(map_name.key_model()),
            r matches Some(bytes) ==> bytes@ == self.images()[map_name.key_model()],
    {
        match self.cache.get(map_name) {
            Some(bytes) => Some(copy_bytes(bytes)),
            None => None,
        }
    }

    /// Caches the image of a map, replacing the one it had.
    pub fn insert(&mut self, map_name: MapName, image: Vec<u8>)
        requires
            old(self).wf(),
        ensures
            final(self).wf(),
            final(self).directory() == old(self).directory(),
            final(self).images() == old(self).images().insert(map_name.key_model(), image@),
    {
        let ghost m = map_name.key_model();
        let ghost bytes = image@;
        self.cache.insert(map_name, image);
        assert(self.images() =~= old(self).images().insert(m, bytes));
    }

    pub fn len(&self) -> (n: usize)
        requires
            self.wf(),
        ensures
            n == self.map_seq().len(),
    {
        self.cache.len()
    }

    /// The files to write for the cache, in the ascending order of the map
    /// names: each map's image under the map's name in the cache directory,
    /// until the bytes given reach `max_bytes` (no limit when zero).
    pub fn files_to_write(&self, max_bytes: u64) -> (files: Vec<(DirPath, &Vec<u8>)>)
        requires
            self.wf(),
        ensures
            self.in_map_order(),
            is_written_count(self.image_seq(), max_bytes as nat, files@.len() as int),
            forall|i: int|
                0 <= i < files@.len() ==> (#[trigger] files@[i]).0@ == self.directory().push(
                    self.map_seq()[i]@,
                ) && *files@[i].1 == self.image_seq()[i],
    {
        proof {
            self.lemma_in_map_order();
        }
        let mut files: Vec<(DirPath, &Vec<u8>)> = Vec::new();
        let mut current: u128 = 0;
        let mut i: usize = 0;
        while i < self.cache.len()
            invariant
                self.wf(),
                i <= self.image_seq().len(),
                files@.len() == i,
                max_bytes > 0 ==> current == prefix_bytes(self.image_seq(), i as int),
                max_bytes > 0 ==> forall|j: int| 0 <= j < i ==> #[trigger] prefix_bytes(self.image_seq(), j) < max_bytes,
                forall|j: int|
                    0 <= j < i ==> (#[trigger] files@[j]).0@ == self.directory().push(
                        self.map_seq()[j]@,
                    ) && *files@[j].1 == self.image_seq()[j],
            ensures
                is_written_count(self.image_seq(), max_bytes as nat, files@.len() as int),
                forall|j: int|
                    0 <= j < files@.len() ==> (#[trigger] files@[j]).0@ == self.directory().push(
                        self.map_seq()[j]@,
                    ) && *files@[j].1 == self.image_seq()[j],
            decreases self.image_seq().len() - i,
        {
            if max_bytes > 0 && current >= max_bytes as u128 {
                break;
            }
            let name = self.cache.key_at(i);
            let bytes = self.cache.value_at(i);
            if max_bytes > 0 {
                current = current + bytes.len() as u128;
            }
            files.push((self.directory_path.join(name.as_str()), bytes));
            i = i + 1;
        }
        files
    }
}

} // verus!
