//! The tile cache and the model of its background downloader.
//!
//! The cache maps a [`TileCoordinates`] to the decoded bitmap of that tile.
//! A coordinate that is not cached yet is put on a bounded request queue; a
//! full queue drops the newest request instead of blocking.  The download
//! loop itself lives outside this crate: it repeatedly takes the next queued
//! coordinate ([`Tiles::next_request`]), rechecks the cache
//! ([`Tiles::should_fetch`]) so that no coordinate is fetched twice, performs
//! one network fetch, and hands the outcome back to [`Tiles::complete`].

use crate::coords::TileCoordinates;
use vstd::prelude::*;

verus! {

/// How many pending tile requests the queue can hold; a request made while
/// the queue holds this many is dropped.
pub const REQUEST_QUEUE_CAPACITY: usize = 5;

/// Mathematical value of a decoded tile bitmap.
pub ghost struct TileView {
    /// Width in pixels.
    pub width: int,
    /// Height in pixels.
    pub height: int,
    /// RGBA bytes, row by row from the top, four bytes per pixel.
    pub pixels: Seq<u8>,
}

/// A decoded tile bitmap: its pixel dimensions and its RGBA bytes.
/// Immutable once constructed.
pub struct Tile {
    /// Width in pixels.
    pub width: usize,
    /// Height in pixels.
    pub height: usize,
    /// RGBA bytes, row by row from the top, four bytes per pixel.
    pub pixels: Vec<u8>,
}

impl View for Tile {
    type V = TileView;

    open spec fn view(&self) -> TileView {
        TileView { width: self.width as int, height: self.height as int, pixels: self.pixels@ }
    }
}

impl Tile {
    /// The byte buffer holds exactly four bytes per pixel.
    pub open spec fn wf(self) -> bool {
        self@.pixels.len() == 4 * self@.width * self@.height
    }

    /// Width of the bitmap in pixels.
    pub fn width(&self) -> (w: usize)
        ensures
            w == self@.width,
    {
        self.width
    }

    /// Height of the bitmap in pixels.
    pub fn height(&self) -> (h: usize)
        ensures
            h == self@.height,
    {
        self.height
    }
}

fn clone_bytes(v: &Vec<u8>) -> (r: Vec<u8>)
    ensures
        r@ == v@,
{
    let r = v.clone();
    proof {
        assert(r@ =~= v@);
    }
    r
}

impl Clone for Tile {
    fn clone(&self) -> (r: Self)
        ensures
            r@ == self@,
    {
        Tile { width: self.width, height: self.height, pixels: clone_bytes(&self.pixels) }
    }
}

/// What decoding a byte string as an image yields: a bitmap if the bytes are
/// a well-formed encoded image, nothing otherwise.  The result depends on
/// the bytes alone.
pub uninterp spec fn image_of(bytes: Seq<u8>) -> Option<TileView>;

/// Relies on `egui_extras::image::load_image_bytes`: it decodes an encoded
/// image (PNG among other formats) into an RGBA bitmap whose pixel buffer
/// holds one `Color32` per pixel, and fails on bytes that are not a
/// well-formed image.  The result is a function of the bytes alone.
#[verifier::external_body]
fn decode_image(bytes: &[u8]) -> (r: Option<Tile>)
    ensures
        match r {
            Some(t) => image_of(bytes@) == Some(t@) && t.wf(),
            None => image_of(bytes@) is None,
        },
{
    match egui_extras::image::load_image_bytes(bytes) {
        Ok(img) => Some(Tile {
            width: img.size[0],
            height: img.size[1],
            pixels: img.pixels.iter().flat_map(|c| c.to_array()).collect(),
        }),
        Err(_) => None,
    }
}

/// Why a tile could not be delivered.
#[derive(Debug, Clone, Copy, PartialEq, Eq, Structural)]
pub enum FetchError {
    /// The network transfer itself failed (connection error, timeout).
    Transport,
    /// The provider answered with a status outside the successful range.
    HttpStatus,
    /// The response body was not a well-formed image.
    Decode,
}

/// First-download-wins insertion: what the cache maps `c` to after a bitmap
/// `v` was decoded for `c`.  A coordinate that is already cached keeps its
/// first bitmap.
pub open spec fn cache_after_insert(
    m: Map<TileCoordinates, TileView>,
    c: TileCoordinates,
    v: TileView,
) -> Map<TileCoordinates, TileView> {
    if m.contains_key(c) {
        m
    } else {
        m.insert(c, v)
    }
}

spec fn seq_lookup(s: Seq<(TileCoordinates, Tile)>, c: TileCoordinates) -> Option<TileView>
    decreases s.len(),
{
    if s.len() == 0 {
        None
    } else if s[0].0 == c {
        Some(s[0].1@)
    } else {
        seq_lookup(s.drop_first(), c)
    }
}

proof fn lemma_lookup_skip(s: Seq<(TileCoordinates, Tile)>, c: TileCoordinates, i: int)
    requires
        0 <= i <= s.len(),
        forall|j: int| 0 <= j < i ==> (#[trigger] s[j]).0 != c,
    ensures
        seq_lookup(s, c) == seq_lookup(s.skip(i), c),
    decreases i,
{
    if i > 0 {
        lemma_lookup_skip(s, c, i - 1);
        assert(s.skip(i - 1).drop_first() =~= s.skip(i));
        assert(s.skip(i - 1)[0] == s[i - 1]);
    } else {
        assert(s.skip(0) =~= s);
    }
}

proof fn lemma_lookup_push(
    s: Seq<(TileCoordinates, Tile)>,
    p: (TileCoordinates, Tile),
    c: TileCoordinates,
)
    ensures
        seq_lookup(s.push(p), c) == if seq_lookup(s, c) is Some {
            seq_lookup(s, c)
        } else if p.0 == c {
            Some(p.1@)
        } else {
            None
        },
    decreases s.len(),
{
    if s.len() == 0 {
        assert(s.push(p)[0] == p);
        assert(s.push(p).drop_first() =~= Seq::<(TileCoordinates, Tile)>::empty());
        assert(seq_lookup(Seq::<(TileCoordinates, Tile)>::empty(), c) is None);
    } else {
        assert(s.push(p)[0] == s[0]);
        assert(s.push(p).drop_first() =~= s.drop_first().push(p));
        lemma_lookup_push(s.drop_first(), p, c);
    }
}

/// The concurrent tile store: the downloaded bitmaps, keyed by coordinate,
/// and the bounded queue of coordinates waiting to be downloaded.
pub struct Tiles {
    cache: Vec<(TileCoordinates, Tile)>,
    queue: Vec<TileCoordinates>,
}

impl Tiles {
    /// The bitmap cached for `c`, if any.
    pub closed spec fn cached(self, c: TileCoordinates) -> Option<TileView> {
        seq_lookup(self.cache@, c)
    }

    /// Whether a bitmap is cached for `c`.
    pub open spec fn has(self, c: TileCoordinates) -> bool {
        self.cached(c) is Some
    }

    /// The cache as a map from coordinate to bitmap.
    pub open spec fn cache_map(self) -> Map<TileCoordinates, TileView> {
        Map::new(|c: TileCoordinates| self.has(c), |c: TileCoordinates| self.cached(c)->Some_0)
    }

    /// The coordinates waiting to be downloaded, oldest first.
    pub closed spec fn queue_view(self) -> Seq<TileCoordinates> {
        self.queue@
    }

    /// Each coordinate is cached at most once, and the queue is within its
    /// capacity.
    pub closed spec fn wf(self) -> bool {
        &&& forall|i: int, j: int|
            0 <= i < j < self.cache@.len() ==> (#[trigger] self.cache@[i]).0 != (
            #[trigger] self.cache@[j]).0
        &&& self.queue@.len() <= REQUEST_QUEUE_CAPACITY
    }

    /// An empty cache with an empty request queue.
    pub fn new() -> (t: Tiles)
        ensures
            t.wf(),
            forall|c: TileCoordinates| !(#[trigger] t.has(c)),
            t.queue_view() == Seq::<TileCoordinates>::empty(),
    {
        let t = Tiles { cache: Vec::new(), queue: Vec::new() };
        proof {
            assert(t.queue@ =~= Seq::<TileCoordinates>::empty());
        }
        t
    }

    fn lookup(&self, c: TileCoordinates) -> (r: Option<Tile>)
        ensures
            match r {
                Some(t) => self.cached(c) == Some(t@),
                None => self.cached(c) is None,
            },
    {
        let n = self.cache.len();
        let mut i: usize = 0;
        while i < n
            invariant
                n == self.cache@.len(),
                0 <= i <= n,
                forall|j: int| 0 <= j < i ==> (#[trigger] self.cache@[j]).0 != c,
            decreases n - i,
        {
            if self.cache[i].0 == c {
                let t = self.cache[i].1.clone();
                proof {
                    lemma_lookup_skip(self.cache@, c, i as int);
                    assert(self.cache@.skip(i as int)[0] == self.cache@[i as int]);
                }
                return Some(t);
            }
            i = i + 1;
        }
        proof {
            lemma_lookup_skip(self.cache@, c, n as int);
            assert(self.cache@.skip(n as int).len() == 0);
        }
        None
    }

    /// Non-blocking read: the cached bitmap for the tile at `(x, y, zoom)`,
    /// if there is one.  On a miss the coordinate is put on the request
    /// queue — unless the queue is full, in which case the request is
    /// dropped — and nothing is returned either way, without waiting for
    /// any download.
    pub fn at(&mut self, x: u32, y: u32, zoom: u8) -> (r: Option<Tile>)
        requires
            old(self).wf(),
        ensures
            final(self).wf(),
            final(self).cache_map() == old(self).cache_map(),
            ({
                let c = TileCoordinates { x, y, zoom };
                &&& (forall|k: TileCoordinates|
                    #[trigger] final(self).cached(k) == old(self).cached(k))
                &&& match r {
                    Some(t) => old(self).cached(c) == Some(t@),
                    None => !old(self).has(c),
                }
                &&& final(self).queue_view() == if !old(self).has(c)
                    && old(self).queue_view().len() < REQUEST_QUEUE_CAPACITY {
                    old(self).queue_view().push(c)
                } else {
                    old(self).queue_view()
                }
            }),
    {
        let c = TileCoordinates { x, y, zoom };
        let found = self.lookup(c);
        if found.is_none() {
            if self.queue.len() < REQUEST_QUEUE_CAPACITY {
                self.queue.push(c);
            }
        }
        proof {
            assert(final(self).cache_map() =~= old(self).cache_map());
        }
        found
    }

    /// The oldest queued coordinate, removed from the queue; nothing if the
    /// queue is empty.  The download loop calls this to learn what to fetch
    /// next.
    pub fn next_request(&mut self) -> (r: Option<TileCoordinates>)
        requires
            old(self).wf(),
        ensures
            final(self).wf(),
            final(self).cache_map() == old(self).cache_map(),
            forall|k: TileCoordinates| #[trigger] final(self).cached(k) == old(self).cached(k),
            match r {
                Some(c) => old(self).queue_view().len() > 0 && c == old(self).queue_view()[0]
                    && final(self).queue_view() == old(self).queue_view().drop_first(),
                None => old(self).queue_view().len() == 0 && final(self).queue_view()
                    == old(self).queue_view(),
            },
    {
        if self.queue.len() == 0 {
            proof {
                assert(self.cache_map() =~= old(self).cache_map());
            }
            None
        } else {
            let c = self.queue.remove(0);
            proof {
                assert(self.queue@ =~= old(self).queue@.drop_first());
                assert(self.cache_map() =~= old(self).cache_map());
            }
            Some(c)
        }
    }

    /// Whether the download loop still has to fetch `coordinates`: true
    /// exactly when no bitmap is cached for it.  The recheck closes the race
    /// between two requests for the same coordinate that were queued before
    /// the first download finished.
    pub fn should_fetch(&self, coordinates: TileCoordinates) -> (b: bool)
        ensures
            b == !self.has(coordinates),
    {
        self.lookup(coordinates).is_none()
    }

    /// Record a decoded bitmap for `coordinates`, unless one is already
    /// cached: the first successful download wins and a coordinate is never
    /// inserted twice.
    pub fn insert(&mut self, coordinates: TileCoordinates, tile: Tile)
        requires
            old(self).wf(),
        ensures
            final(self).wf(),
            final(self).queue_view() == old(self).queue_view(),
            final(self).cache_map() == cache_after_insert(
                old(self).cache_map(),
                coordinates,
                tile@,
            ),
            old(self).has(coordinates) ==> forall|k: TileCoordinates|
                #[trigger] final(self).cached(k) == old(self).cached(k),
            !old(self).has(coordinates) ==> final(self).cached(coordinates) == Some(tile@)
                && forall|k: TileCoordinates|
                k != coordinates ==> #[trigger] final(self).cached(k) == old(self).cached(k),
    {
        let absent = self.should_fetch(coordinates);
        if absent {
            proof {
                lemma_lookup_none_iff(self.cache@, coordinates);
            }
            let ghost s0 = self.cache@;
            self.cache.push((coordinates, tile));
            proof {
                assert forall|k: TileCoordinates| true implies #[trigger] seq_lookup(
                    self.cache@,
                    k,
                ) == if k == coordinates {
                    Some(tile@)
                } else {
                    seq_lookup(s0, k)
                } by {
                    lemma_lookup_push(s0, (coordinates, tile), k);
                }
                assert(final(self).cache_map() =~= cache_after_insert(
                    old(self).cache_map(),
                    coordinates,
                    tile@,
                ));
            }
        } else {
            proof {
                assert(final(self).cache_map() =~= cache_after_insert(
                    old(self).cache_map(),
                    coordinates,
                    tile@,
                ));
            }
        }
    }

    /// Classify and record the outcome of one download for `coordinates`.
    ///
    /// A transport or status error is handed back unchanged; a body that
    /// does not decode as an image yields [`FetchError::Decode`]; a decoded
    /// bitmap is inserted, first download winning.  No outcome, failed or
    /// not, touches the request queue, so one failed download never stops
    /// later ones.
    pub fn complete(&mut self, coordinates: TileCoordinates, data: Result<Vec<u8>, FetchError>) -> (r:
        Result<(), FetchError>)
        requires
            old(self).wf(),
        ensures
            final(self).wf(),
            final(self).queue_view() == old(self).queue_view(),
            match data {
                Err(e) => r == Err::<(), FetchError>(e) && final(self).cache_map()
                    == old(self).cache_map(),
                Ok(bytes) => match image_of(bytes@) {
                    None => r == Err::<(), FetchError>(FetchError::Decode)
                        && final(self).cache_map() == old(self).cache_map(),
                    Some(v) => r == Ok::<(), FetchError>(()) && final(self).cache_map()
                        == cache_after_insert(old(self).cache_map(), coordinates, v),
                },
            },
    {
        match data {
            Err(e) => {
                proof {
                    assert(final(self).cache_map() =~= old(self).cache_map());
                }
                Err(e)
            },
            Ok(bytes) => match decode_image(bytes.as_slice()) {
                None => {
                    proof {
                        assert(final(self).cache_map() =~= old(self).cache_map());
                    }
                    Err(FetchError::Decode)
                },
                Some(tile) => {
                    self.insert(coordinates, tile);
                    Ok(())
                },
            },
        }
    }
}

proof fn lemma_lookup_none_iff(s: Seq<(TileCoordinates, Tile)>, c: TileCoordinates)
    ensures
        (seq_lookup(s, c) is None) <==> (forall|j: int| 0 <= j < s.len() ==> (#[trigger] s[j]).0
            != c),
    decreases s.len(),
{
    if s.len() > 0 {
        lemma_lookup_none_iff(s.drop_first(), c);
        assert forall|j: int| 1 <= j < s.len() implies s.drop_first()[j - 1] == s[j] by {}
    }
}

/// Law: duplicate requests are downloaded and inserted once.  After a first
/// successful download of `c`, the coordinate is cached — so the download
/// loop's recheck refuses to fetch it again — and a second completed
/// download for `c`, whatever bitmap it decoded to, leaves the cache exactly
/// as the first left it.
pub proof fn lemma_download_deduplicated(
    m: Map<TileCoordinates, TileView>,
    c: TileCoordinates,
    v1: TileView,
    v2: TileView,
)
    ensures
        cache_after_insert(m, c, v1).contains_key(c),
        cache_after_insert(cache_after_insert(m, c, v1), c, v2) == cache_after_insert(m, c, v1),
{
}

/// Law: a successful download is visible to later reads.  Completing a
/// download of `v` for a coordinate that was not cached caches exactly `v`
/// for it, and touches no other coordinate.
pub proof fn lemma_miss_then_hit(
    m: Map<TileCoordinates, TileView>,
    c: TileCoordinates,
    v: TileView,
)
    requires
        !m.contains_key(c),
    ensures
        cache_after_insert(m, c, v).contains_key(c),
        cache_after_insert(m, c, v)[c] == v,
        forall|k: TileCoordinates|
            k != c ==> cache_after_insert(m, c, v).contains_key(k) == m.contains_key(k) && (
            m.contains_key(k) ==> cache_after_insert(m, c, v)[k] == m[k]),
{
}

} // verus!
