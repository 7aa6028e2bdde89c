use vstd::prelude::*;

verus! {

/// An 8-bit RGBA colour.
#[derive(Debug, Clone, Copy, PartialEq, Eq, Structural)]
pub struct Color {
    pub r: u8,
    pub g: u8,
    pub b: u8,
    pub a: u8,
}

/// An axis-aligned rectangle in whole pixels.
#[derive(Debug, Clone, Copy, PartialEq, Eq, Structural)]
pub struct Rect {
    pub x: i32,
    pub y: i32,
    pub width: i32,
    pub height: i32,
}

/// One draw request of a frame. `P` is where and how a sprite is placed
/// (position, rotation, scale), which the queue carries without reading.
pub enum DrawRequest<P> {
    /// A filled rectangle.
    Shape { rect: Rect, color: Color },
    /// A texture, named by the path it is loaded from.
    Sprite { texture: String, placement: P, color: Color },
}

/// One call that the renderer is to make, in order.
pub enum DrawCall<P> {
    /// Fill `rect` with `color`.
    Rectangle { rect: Rect, color: Color },
    /// Draw the loaded texture `handle`.
    Texture { handle: usize, placement: P, color: Color },
}

/// The paths that a list of strings holds.
pub open spec fn paths_of(v: Seq<String>) -> Seq<Seq<char>> {
    v.map_values(|s: String| s@)
}

/// The handle of `path` in the cache `c`: its position there, if it is there.
pub open spec fn handle_of(c: Seq<Seq<char>>, path: Seq<char>) -> Option<usize> {
    if exists|h: int| 0 <= h < c.len() && c[h] == path {
        Some((choose|h: int| 0 <= h < c.len() && c[h] == path) as usize)
    } else {
        None
    }
}

/// The paths to load for the load requests `pending` when `c` is cached: each
/// path not yet cached, once, in the order of its first request.
pub open spec fn loads_of(pending: Seq<Seq<char>>, c: Seq<Seq<char>>) -> Seq<Seq<char>>
    decreases pending.len(),
{
    if pending.len() == 0 {
        Seq::empty()
    } else {
        let prev = loads_of(pending.drop_last(), c);
        let x = pending.last();
        if c.contains(x) || prev.contains(x) {
            prev
        } else {
            prev.push(x)
        }
    }
}

/// The renderer calls for the requests `reqs` of a frame, with `c` cached:
/// one per request, in request order, where a sprite whose texture is not
/// cached gives none.
pub open spec fn frame_calls<P>(reqs: Seq<DrawRequest<P>>, c: Seq<Seq<char>>) -> Seq<DrawCall<P>>
    decreases reqs.len(),
{
    if reqs.len() == 0 {
        Seq::empty()
    } else {
        let prev = frame_calls(reqs.drop_last(), c);
        match reqs.last() {
            DrawRequest::Shape { rect, color } => prev.push(DrawCall::Rectangle { rect, color }),
            DrawRequest::Sprite { texture, placement, color } => match handle_of(c, texture@) {
                Some(h) => prev.push(DrawCall::Texture { handle: h, placement, color }),
                None => prev,
            },
        }
    }
}

/// The calls for two request lists, one after the other, are the calls for
/// the first followed by those for the second. As a flush empties the queue,
/// each frame draws exactly the calls of its own requests, in their order,
/// and nothing of an earlier frame.
pub proof fn lemma_frame_calls_concat<P>(a: Seq<DrawRequest<P>>, b: Seq<DrawRequest<P>>, c: Seq<Seq<char>>)
    ensures
        frame_calls(a + b, c) == frame_calls(a, c) + frame_calls(b, c),
    decreases b.len(),
{
    if b.len() == 0 {
        assert(a + b =~= a);
        assert(frame_calls(a, c) + frame_calls(b, c) =~= frame_calls(a, c));
    } else {
        let d = b.drop_last();
        lemma_frame_calls_concat(a, d, c);
        assert((a + b).drop_last() =~= a + d);
        assert((a + b).last() == b.last());
        let fa = frame_calls(a, c);
        let fd = frame_calls(d, c);
        match b.last() {
            DrawRequest::Shape { rect, color } => {
                assert(fa + fd.push(DrawCall::Rectangle { rect, color }) =~= (fa + fd).push(
                    DrawCall::Rectangle { rect, color },
                ));
            },
            DrawRequest::Sprite { texture, placement, color } => {
                if let Some(h) = handle_of(c, texture@) {
                    assert(fa + fd.push(DrawCall::Texture { handle: h, placement, color }) =~= (fa
                        + fd).push(DrawCall::Texture { handle: h, placement, color }));
                }
            },
        }
    }
}

/// A shape request is drawn exactly once, at its place among the calls of
/// the requests around it, whatever sprites are skipped before or after it.
pub proof fn lemma_shape_drawn<P>(
    a: Seq<DrawRequest<P>>,
    rect: Rect,
    color: Color,
    b: Seq<DrawRequest<P>>,
    c: Seq<Seq<char>>,
)
    ensures
        frame_calls(a.push(DrawRequest::Shape { rect, color }) + b, c) == frame_calls(a, c).push(
            DrawCall::Rectangle { rect, color },
        ) + frame_calls(b, c),
{
    lemma_frame_calls_concat(a.push(DrawRequest::Shape { rect, color }), b, c);
    assert(a.push(DrawRequest::Shape { rect, color }).drop_last() =~= a);
}

proof fn lemma_handle_of_at(c: Seq<Seq<char>>, path: Seq<char>, i: int)
    requires
        c.no_duplicates(),
        0 <= i < c.len(),
        c[i] == path,
    ensures
        handle_of(c, path) == Some(i as usize),
{
    assert(exists|h: int| 0 <= h < c.len() && c[h] == path);
}

/// Each path is loaded at most once: what is to be loaded holds no path
/// twice and none that is cached, and every requested path is either cached
/// or to be loaded.
pub proof fn lemma_loads_once(pending: Seq<Seq<char>>, c: Seq<Seq<char>>)
    ensures
        loads_of(pending, c).no_duplicates(),
        forall|x: Seq<char>| #[trigger] loads_of(pending, c).contains(x) ==> !c.contains(x)
            && pending.contains(x),
        forall|x: Seq<char>| #[trigger] pending.contains(x) ==> c.contains(x) || loads_of(
            pending,
            c,
        ).contains(x),
    decreases pending.len(),
{
    if pending.len() > 0 {
        let d = pending.drop_last();
        lemma_loads_once(d, c);
        let prev = loads_of(d, c);
        let x = pending.last();
        assert forall|y: Seq<char>| #[trigger] d.contains(y) implies pending.contains(y) by {
            let k = choose|k: int| 0 <= k < d.len() && d[k] == y;
            assert(pending[k] == y);
        }
        assert(pending[pending.len() - 1] == x);
        assert forall|y: Seq<char>| #[trigger] pending.contains(y) implies c.contains(y) || loads_of(
            pending,
            c,
        ).contains(y) by {
            let k = choose|k: int| 0 <= k < pending.len() && pending[k] == y;
            if k < pending.len() - 1 {
                assert(d[k] == y);
                assert(d.contains(y));
                if !c.contains(y) {
                    assert(prev.contains(y));
                    let j = choose|j: int| 0 <= j < prev.len() && prev[j] == y;
                    if !(c.contains(x) || prev.contains(x)) {
                        assert(prev.push(x)[j] == y);
                    }
                }
            } else if !c.contains(x) && !prev.contains(x) {
                assert(prev.push(x)[prev.len() as int] == x);
            }
        }
        if !(c.contains(x) || prev.contains(x)) {
            let r = prev.push(x);
            assert forall|y: Seq<char>| #[trigger] r.contains(y) implies !c.contains(y)
                && pending.contains(y) by {
                let k = choose|k: int| 0 <= k < r.len() && r[k] == y;
                if k < prev.len() {
                    assert(prev[k] == y);
                    assert(prev.contains(y));
                } else {
                    assert(pending[pending.len() - 1] == y);
                }
            }
            assert forall|j: int, k: int| 0 <= j < r.len() && 0 <= k < r.len() && j != k implies r[j]
                != r[k] by {
                if j < prev.len() && k < prev.len() {
                } else if j == prev.len() {
                    assert(r[k] == prev[k]);
                } else {
                    assert(r[j] == prev[j]);
                }
            }
        }
    }
}

/// A cached path keeps its handle whatever is cached after it.
pub proof fn lemma_handle_kept(c: Seq<Seq<char>>, path: Seq<char>, other: Seq<char>)
    requires
        c.no_duplicates(),
        c.contains(path),
        !c.contains(other),
    ensures
        handle_of(c, path) is Some,
        handle_of(c.push(other), path) == handle_of(c, path),
{
    let i = choose|i: int| 0 <= i < c.len() && c[i] == path;
    lemma_handle_of_at(c, path, i);
    let c2 = c.push(other);
    assert(c2[i] == path);
    assert forall|j: int, k: int| 0 <= j < c2.len() && 0 <= k < c2.len() && j != k implies c2[j]
        != c2[k] by {
        if j < c.len() && k < c.len() {
        } else if j == c.len() {
            assert(c[k] == c2[k]);
        } else {
            assert(c[j] == c2[j]);
        }
    }
    lemma_handle_of_at(c2, path, i);
}

/// Requests for paths that are all cached load nothing: resolving a cached
/// path again, however often it is asked for, makes no further load.
pub proof fn lemma_cached_not_reloaded(pending: Seq<Seq<char>>, c: Seq<Seq<char>>)
    requires
        forall|k: int| 0 <= k < pending.len() ==> c.contains(#[trigger] pending[k]),
    ensures
        loads_of(pending, c) == Seq::<Seq<char>>::empty(),
    decreases pending.len(),
{
    if pending.len() > 0 {
        let d = pending.drop_last();
        assert forall|k: int| 0 <= k < d.len() implies c.contains(#[trigger] d[k]) by {
            assert(d[k] == pending[k]);
        }
        lemma_cached_not_reloaded(d, c);
        assert(c.contains(pending[pending.len() - 1]));
    }
}

/// The load-once texture cache and the queue of requested loads. A texture's
/// handle is the position of its path among the cached paths.
pub struct TextureCache {
    paths: Vec<String>,
    pending: Vec<String>,
}

impl TextureCache {
    /// The cached paths, in order of their handles.
    pub closed spec fn cached(&self) -> Seq<Seq<char>> {
        paths_of(self.paths@)
    }

    /// The requested paths that have not been taken for loading yet.
    pub closed spec fn pending(&self) -> Seq<Seq<char>> {
        paths_of(self.pending@)
    }

    /// The cache's invariant: no path is cached twice.
    pub open spec fn wf(&self) -> bool {
        self.cached().no_duplicates()
    }

    /// An empty cache with no pending load.
    pub fn new() -> (r: TextureCache)
        ensures
            r.wf(),
            r.cached() == Seq::<Seq<char>>::empty(),
            r.pending() == Seq::<Seq<char>>::empty(),
    {
        let r = TextureCache { paths: Vec::new(), pending: Vec::new() };
        assert(r.cached() =~= Seq::<Seq<char>>::empty());
        assert(r.pending() =~= Seq::<Seq<char>>::empty());
        r
    }

    /// The number of cached textures.
    pub fn len(&self) -> (r: usize)
        ensures
            r == self.cached().len(),
    {
        self.paths.len()
    }

    /// The handle of `path` if it is cached; `None` where it must be loaded.
    pub fn resolve(&self, path: &String) -> (r: Option<usize>)
        requires
            self.wf(),
        ensures
            r == handle_of(self.cached(), path@),
            r is Some ==> r.unwrap() < self.cached().len() && self.cached()[r.unwrap() as int]
                == path@,
            r is None <==> !self.cached().contains(path@),
    {
        let mut i: usize = 0;
        while i < self.paths.len()
            invariant
                self.wf(),
                i <= self.paths@.len(),
                forall|k: int| 0 <= k < i ==> self.cached()[k] != path@,
            decreases self.paths@.len() - i,
        {
            if self.paths[i] == *path {
                proof {
                    lemma_handle_of_at(self.cached(), path@, i as int);
                }
                return Some(i);
            }
            i += 1;
        }
        assert(!(exists|h: int| 0 <= h < self.cached().len() && self.cached()[h] == path@));
        None
    }

    /// Records that `path` has been loaded and returns its handle. A path
    /// already cached keeps its handle and leaves the cache as it was; a new
    /// one gets the next handle.
    pub fn insert_loaded(&mut self, path: String) -> (r: usize)
        requires
            old(self).wf(),
            old(self).cached().len() < usize::MAX,
        ensures
            final(self).wf(),
            final(self).pending() == old(self).pending(),
            old(self).cached().contains(path@) ==> final(self).cached() == old(self).cached()
                && Some(r) == handle_of(old(self).cached(), path@),
            !old(self).cached().contains(path@) ==> final(self).cached() == old(self).cached().push(
                path@,
            ) && r == old(self).cached().len(),
            Some(r) == handle_of(final(self).cached(), path@),
    {
        match self.resolve(&path) {
            Some(h) => h,
            None => {
                let h = self.paths.len();
                let ghost c = self.cached();
                self.paths.push(path);
                let ghost c2 = self.cached();
                assert(c2 =~= c.push(path@));
                assert forall|j: int, k: int|
                    0 <= j < c2.len() && 0 <= k < c2.len() && j != k implies c2[j] != c2[k] by {
                    if j < c.len() && k < c.len() {
                    } else if j == c.len() {
                        assert(c[k] == c2[k]);
                    } else {
                        assert(c[j] == c2[j]);
                    }
                }
                proof {
                    lemma_handle_of_at(c2, path@, h as int);
                }
                h
            },
        }
    }

    /// Queues `path` for loading; nothing is loaded yet.
    pub fn request_load(&mut self, path: String)
        ensures
            final(self).cached() == old(self).cached(),
            final(self).pending() == old(self).pending().push(path@),
    {
        self.pending.push(path);
        assert(self.pending() =~= old(self).pending().push(path@));
    }

    /// Takes the queued loads: the paths that are to be loaded, each at most
    /// once and none already cached. The queue is left empty.
    pub fn take_loads(&mut self) -> (r: Vec<String>)
        requires
            old(self).wf(),
        ensures
            final(self).wf(),
            final(self).cached() == old(self).cached(),
            final(self).pending() == Seq::<Seq<char>>::empty(),
            paths_of(r@) == loads_of(old(self).pending(), old(self).cached()),
            paths_of(r@).no_duplicates(),
            forall|x: Seq<char>| #[trigger] paths_of(r@).contains(x) ==> !old(self).cached().contains(x),
    {
        let ghost pend = self.pending();
        let ghost c = self.cached();
        let mut out: Vec<String> = Vec::new();
        let mut i: usize = 0;
        while i < self.pending.len()
            invariant
                self.wf(),
                pend == self.pending(),
                c == self.cached(),
                i <= self.pending@.len(),
                paths_of(out@) == loads_of(pend.take(i as int), c),
            decreases self.pending@.len() - i,
        {
            let s = self.pending[i].clone();
            let ghost prev = paths_of(out@);
            assert(pend.take(i as int + 1).drop_last() =~= pend.take(i as int));
            assert(pend.take(i as int + 1).last() == s@);
            let cached = self.resolve(&s).is_some();
            let seen = contains_path(&out, &s);
            if !cached && !seen {
                out.push(s);
                assert(paths_of(out@) =~= prev.push(pend[i as int]));
            }
            i += 1;
        }
        assert(pend.take(pend.len() as int) =~= pend);
        proof {
            lemma_loads_once(pend, c);
        }
        self.pending.clear();
        assert(self.pending() =~= Seq::<Seq<char>>::empty());
        out
    }
}

/// Whether `v` holds `s`.
fn contains_path(v: &Vec<String>, s: &String) -> (r: bool)
    ensures
        r == paths_of(v@).contains(s@),
{
    let mut i: usize = 0;
    while i < v.len()
        invariant
            i <= v@.len(),
            forall|k: int| 0 <= k < i ==> paths_of(v@)[k] != s@,
        decreases v@.len() - i,
    {
        if v[i] == *s {
            assert(paths_of(v@)[i as int] == s@);
            return true;
        }
        i += 1;
    }
    false
}

/// The draw requests of the current frame, in the order they were made.
pub struct RenderQueue<P> {
    requests: Vec<DrawRequest<P>>,
}

impl<P> View for RenderQueue<P> {
    type V = Seq<DrawRequest<P>>;

    closed spec fn view(&self) -> Seq<DrawRequest<P>> {
        self.requests@
    }
}

impl<P> RenderQueue<P> {
    /// An empty queue.
    pub fn new() -> (r: RenderQueue<P>)
        ensures
            r@ == Seq::<DrawRequest<P>>::empty(),
    {
        RenderQueue { requests: Vec::new() }
    }

    /// The number of requests queued.
    pub fn len(&self) -> (r: usize)
        ensures
            r == self@.len(),
    {
        self.requests.len()
    }

    /// Queues a filled rectangle.
    pub fn push_rectangle(&mut self, rect: Rect, color: Color)
        ensures
            final(self)@ == old(self)@.push(DrawRequest::Shape { rect, color }),
    {
        self.requests.push(DrawRequest::Shape { rect, color });
    }

    /// Queues a sprite of the texture loaded from `texture`.
    pub fn push_sprite(&mut self, texture: String, placement: P, color: Color)
        ensures
            final(self)@ == old(self)@.push(DrawRequest::Sprite { texture, placement, color }),
    {
        self.requests.push(DrawRequest::Sprite { texture, placement, color });
    }

    /// Turns the frame's requests into renderer calls, in request order,
    /// skipping each sprite whose texture is not cached, and empties the
    /// queue for the next frame.
    pub fn flush(&mut self, cache: &TextureCache) -> (r: Vec<DrawCall<P>>)
        requires
            cache.wf(),
        ensures
            r@ == frame_calls(old(self)@, cache.cached()),
            final(self)@ == Seq::<DrawRequest<P>>::empty(),
    {
        let mut pending: Vec<DrawRequest<P>> = Vec::new();
        std::mem::swap(&mut pending, &mut self.requests);
        let ghost all = pending@;
        let ghost c = cache.cached();
        let ghost mut i: int = 0;
        let mut out: Vec<DrawCall<P>> = Vec::new();
        assert(all.take(0) =~= Seq::<DrawRequest<P>>::empty());
        while pending.len() > 0
            invariant
                cache.wf(),
                c == cache.cached(),
                self.requests@ == Seq::<DrawRequest<P>>::empty(),
                0 <= i <= all.len(),
                pending@ == all.skip(i),
                out@ == frame_calls(all.take(i), c),
            decreases pending@.len(),
        {
            let req = pending.remove(0);
            assert(all.take(i + 1).drop_last() =~= all.take(i));
            assert(all.take(i + 1).last() == req);
            match req {
                DrawRequest::Shape { rect, color } => {
                    out.push(DrawCall::Rectangle { rect, color });
                },
                DrawRequest::Sprite { texture, placement, color } => {
                    match cache.resolve(&texture) {
                        Some(h) => {
                            out.push(DrawCall::Texture { handle: h, placement, color });
                        },
                        None => {},
                    }
                },
            }
            proof {
                i = i + 1;
            }
            assert(pending@ =~= all.skip(i));
        }
        assert(all.take(i) =~= all);
        out
    }
}

} // verus!
