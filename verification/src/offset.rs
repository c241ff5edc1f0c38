//! Idempotent window-offset planning with a durable store of original
//! frames.
//!
//! When an overlay strip is shown, every window of the target editor whose
//! top edge lies above the strip's lower edge is moved down to it and
//! shrunk by the amount moved; the window's original frame is recorded so
//! the move can be undone.  A window already recorded is never moved again;
//! restoring puts every recorded frame back and drops the record.  The
//! accessibility calls and the store file live outside this crate: the
//! functions here decide, over plain geometry, which frames to set and what
//! the store becomes.

use vstd::prelude::*;
use crate::strutil::{chars_eq, str_chars};

verus! {

/// Coordinates are whole points; every coordinate handled here is bounded
/// by this, which keeps all frame arithmetic inside `i64`.
pub const COORD_LIMIT: i64 = 0x4000_0000_0000;

/// The smallest height a displaced window may keep.
pub const MIN_WINDOW_HEIGHT: i64 = 100;

/// Window frame data: origin and size in screen points, top-left origin.
#[derive(Clone, Copy, Debug, PartialEq, Eq, Structural)]
pub struct WindowFrame {
    pub x: i64,
    pub y: i64,
    pub width: i64,
    pub height: i64,
}

/// One live window's geometry and state, as enumeration reported it.
#[derive(Clone, Copy, Debug, PartialEq, Eq, Structural)]
pub struct WindowGeom {
    /// Stable window id.
    pub window_id: u32,
    pub x: i64,
    pub y: i64,
    pub width: i64,
    pub height: i64,
    /// The window is minimized.
    pub minimized: bool,
    /// The window is in native fullscreen.
    pub fullscreen: bool,
}

/// A frame to apply to one window.
#[derive(Clone, Copy, Debug, PartialEq, Eq, Structural)]
pub struct FrameAction {
    /// The window to move.
    pub window_id: u32,
    /// The frame to set.
    pub frame: WindowFrame,
}

/// The primary display's size.
#[derive(Clone, Copy, Debug, PartialEq, Eq, Structural)]
pub struct ScreenSize {
    pub width: i64,
    pub height: i64,
}

/// One recorded original frame.
#[derive(Clone, Copy)]
pub struct WindowEntry {
    /// The displaced window.
    pub window_id: u32,
    /// Its frame before displacement.
    pub frame: WindowFrame,
}

/// The recorded frames of one editor's windows.
pub struct BundleEntry {
    /// The editor's bundle id.
    pub bundle_id: String,
    /// Original frames keyed by window id.
    pub windows: Vec<WindowEntry>,
}

/// The window map encoded by a bundle's entries: later entries win.
pub open spec fn window_entries_map(s: Seq<WindowEntry>) -> Map<u32, WindowFrame>
    decreases s.len(),
{
    if s.len() == 0 {
        Map::empty()
    } else {
        window_entries_map(s.drop_last()).insert(s.last().window_id, s.last().frame)
    }
}

/// No two entries share a window id.
pub open spec fn window_entries_wf(s: Seq<WindowEntry>) -> bool {
    forall|i: int, j: int| 0 <= i < j < s.len() ==> s[i].window_id != s[j].window_id
}

/// The store map encoded by the bundle list: later entries win.
pub open spec fn bundle_entries_map(s: Seq<BundleEntry>) -> Map<Seq<char>, Map<u32, WindowFrame>>
    decreases s.len(),
{
    if s.len() == 0 {
        Map::empty()
    } else {
        bundle_entries_map(s.drop_last()).insert(
            s.last().bundle_id@,
            window_entries_map(s.last().windows@),
        )
    }
}

/// No two bundles share an id, and each bundle's window entries are unique.
pub open spec fn bundle_entries_wf(s: Seq<BundleEntry>) -> bool {
    &&& forall|i: int, j: int| 0 <= i < j < s.len() ==> s[i].bundle_id@ != s[j].bundle_id@
    &&& forall|i: int| 0 <= i < s.len() ==> window_entries_wf(#[trigger] s[i].windows@)
}

/// Stored original window frames, keyed by bundle id and window id.
/// The durable source of truth for crash recovery: a recorded window
/// currently has an applied offset whose reversal needs the stored frame.
pub struct OffsetStore {
    pub positions: Vec<BundleEntry>,
}

impl View for OffsetStore {
    type V = Map<Seq<char>, Map<u32, WindowFrame>>;

    open spec fn view(&self) -> Map<Seq<char>, Map<u32, WindowFrame>> {
        bundle_entries_map(self.positions@)
    }
}

proof fn lemma_window_entries_contains(s: Seq<WindowEntry>, k: u32)
    ensures
        window_entries_map(s).contains_key(k) <==> exists|i: int|
            0 <= i < s.len() && s[i].window_id == k,
    decreases s.len(),
{
    if s.len() > 0 {
        lemma_window_entries_contains(s.drop_last(), k);
        if s.last().window_id == k {
            assert(s[s.len() - 1].window_id == k);
        } else if window_entries_map(s).contains_key(k) {
            let i = choose|i: int|
                0 <= i < s.drop_last().len() && s.drop_last()[i].window_id == k;
            assert(s[i].window_id == k);
        } else if exists|i: int| 0 <= i < s.len() && s[i].window_id == k {
            let i = choose|i: int| 0 <= i < s.len() && s[i].window_id == k;
            assert(s.drop_last()[i].window_id == k);
        }
    }
}

proof fn lemma_bundle_entries_contains(s: Seq<BundleEntry>, k: Seq<char>)
    ensures
        bundle_entries_map(s).contains_key(k) <==> exists|i: int|
            0 <= i < s.len() && s[i].bundle_id@ == k,
    decreases s.len(),
{
    if s.len() > 0 {
        lemma_bundle_entries_contains(s.drop_last(), k);
        if s.last().bundle_id@ == k {
            assert(s[s.len() - 1].bundle_id@ == k);
        } else if bundle_entries_map(s).contains_key(k) {
            let i = choose|i: int|
                0 <= i < s.drop_last().len() && s.drop_last()[i].bundle_id@ == k;
            assert(s[i].bundle_id@ == k);
        } else if exists|i: int| 0 <= i < s.len() && s[i].bundle_id@ == k {
            let i = choose|i: int| 0 <= i < s.len() && s[i].bundle_id@ == k;
            assert(s.drop_last()[i].bundle_id@ == k);
        }
    }
}

proof fn lemma_bundle_entries_get(s: Seq<BundleEntry>, i: int)
    requires
        bundle_entries_wf(s),
        0 <= i < s.len(),
    ensures
        bundle_entries_map(s).contains_key(s[i].bundle_id@),
        bundle_entries_map(s)[s[i].bundle_id@] == window_entries_map(s[i].windows@),
    decreases s.len(),
{
    if i == s.len() - 1 {
    } else {
        assert(bundle_entries_wf(s.drop_last()));
        assert(s.drop_last()[i] == s[i]);
        lemma_bundle_entries_get(s.drop_last(), i);
        assert(s[i].bundle_id@ != s.last().bundle_id@);
    }
}

proof fn lemma_window_entries_get(s: Seq<WindowEntry>, i: int)
    requires
        window_entries_wf(s),
        0 <= i < s.len(),
    ensures
        window_entries_map(s).contains_key(s[i].window_id),
        window_entries_map(s)[s[i].window_id] == s[i].frame,
    decreases s.len(),
{
    if i == s.len() - 1 {
    } else {
        assert(window_entries_wf(s.drop_last()));
        assert(s.drop_last()[i] == s[i]);
        lemma_window_entries_get(s.drop_last(), i);
        assert(s[i].window_id != s.last().window_id);
    }
}

proof fn lemma_bundle_entries_update(s: Seq<BundleEntry>, j: int, e: BundleEntry)
    requires
        bundle_entries_wf(s),
        0 <= j < s.len(),
        e.bundle_id@ == s[j].bundle_id@,
        window_entries_wf(e.windows@),
    ensures
        bundle_entries_wf(s.update(j, e)),
        bundle_entries_map(s.update(j, e)) == bundle_entries_map(s).insert(
            e.bundle_id@,
            window_entries_map(e.windows@),
        ),
    decreases s.len(),
{
    if j == s.len() - 1 {
        assert(s.update(j, e).drop_last() =~= s.drop_last());
        assert(bundle_entries_map(s.update(j, e)) =~= bundle_entries_map(s).insert(
            e.bundle_id@,
            window_entries_map(e.windows@),
        ));
    } else {
        assert(bundle_entries_wf(s.drop_last()));
        assert(s.drop_last()[j] == s[j]);
        lemma_bundle_entries_update(s.drop_last(), j, e);
        assert(s.update(j, e).drop_last() =~= s.drop_last().update(j, e));
        assert(s.update(j, e).last() == s.last());
        assert(e.bundle_id@ != s.last().bundle_id@);
        assert(bundle_entries_map(s.update(j, e)) =~= bundle_entries_map(s).insert(
            e.bundle_id@,
            window_entries_map(e.windows@),
        ));
    }
}

proof fn lemma_bundle_entries_remove(s: Seq<BundleEntry>, j: int)
    requires
        bundle_entries_wf(s),
        0 <= j < s.len(),
    ensures
        bundle_entries_wf(s.remove(j)),
        bundle_entries_map(s.remove(j)) == bundle_entries_map(s).remove(s[j].bundle_id@),
    decreases s.len(),
{
    lemma_bundle_entries_contains(s, s[j].bundle_id@);
    if j == s.len() - 1 {
        assert(s.remove(j) =~= s.drop_last());
        assert(forall|i: int| 0 <= i < s.drop_last().len() ==> s[i].bundle_id@ != s[j].bundle_id@);
        lemma_bundle_entries_contains(s.drop_last(), s[j].bundle_id@);
        assert(!bundle_entries_map(s.drop_last()).contains_key(s[j].bundle_id@));
        assert(bundle_entries_map(s.remove(j)) =~= bundle_entries_map(s).remove(s[j].bundle_id@));
    } else {
        assert(bundle_entries_wf(s.drop_last()));
        assert(s.drop_last()[j] == s[j]);
        lemma_bundle_entries_remove(s.drop_last(), j);
        assert(s.remove(j).drop_last() =~= s.drop_last().remove(j));
        assert(s.remove(j).last() == s.last());
        assert(s[j].bundle_id@ != s.last().bundle_id@);
        assert(bundle_entries_map(s.remove(j)) =~= bundle_entries_map(s).remove(s[j].bundle_id@));
    }
}

impl OffsetStore {
    /// Every bundle id and every window id within a bundle is unique.
    pub open spec fn wf(&self) -> bool {
        bundle_entries_wf(self.positions@)
    }

    /// An empty store.
    pub fn new() -> (r: OffsetStore)
        ensures
            r.wf(),
            r@ == Map::<Seq<char>, Map<u32, WindowFrame>>::empty(),
    {
        OffsetStore { positions: Vec::new() }
    }

    /// Index of the bundle entry for `bundle_id`, if any.
    fn find_bundle(&self, bundle_id: &str) -> (r: Option<usize>)
        ensures
            match r {
                Some(j) => j < self.positions@.len() && self.positions@[j as int].bundle_id@
                    == bundle_id@,
                None => forall|i: int|
                    0 <= i < self.positions@.len() ==> self.positions@[i].bundle_id@ != bundle_id@,
            },
    {
        let bc = str_chars(bundle_id);
        let mut k: usize = 0;
        while k < self.positions.len()
            invariant
                bc@ == bundle_id@,
                k <= self.positions@.len(),
                forall|i: int| 0 <= i < k ==> self.positions@[i].bundle_id@ != bundle_id@,
            decreases self.positions@.len() - k,
        {
            let ec = str_chars(self.positions[k].bundle_id.as_str());
            if chars_eq(&ec, &bc) {
                return Some(k);
            }
            k = k + 1;
        }
        None
    }

    /// Whether the store holds no bundle.
    pub fn is_empty(&self) -> (r: bool)
        requires
            self.wf(),
        ensures
            r == (self@ == Map::<Seq<char>, Map<u32, WindowFrame>>::empty()),
    {
        proof {
            if self.positions@.len() > 0 {
                lemma_bundle_entries_get(self.positions@, 0);
            } else {
                assert(self@ =~= Map::<Seq<char>, Map<u32, WindowFrame>>::empty());
            }
        }
        self.positions.len() == 0
    }

    /// The bundle ids the store tracks, in insertion order.
    pub fn bundle_ids(&self) -> (r: Vec<String>)
        requires
            self.wf(),
        ensures
            forall|i: int| 0 <= i < r@.len() ==> self@.contains_key(#[trigger] r@[i]@),
            forall|p: Seq<char>|
                self@.contains_key(p) ==> exists|i: int| 0 <= i < r@.len() && r@[i]@ == p,
    {
        let mut v: Vec<String> = Vec::new();
        let mut k: usize = 0;
        while k < self.positions.len()
            invariant
                self.wf(),
                k <= self.positions@.len(),
                v@.len() == k,
                forall|i: int|
                    0 <= i < k ==> v@[i]@ == self.positions@[i].bundle_id@ && self@.contains_key(
                        v@[i]@,
                    ),
            decreases self.positions@.len() - k,
        {
            proof {
                lemma_bundle_entries_get(self.positions@, k as int);
            }
            v.push(self.positions[k].bundle_id.clone());
            k = k + 1;
        }
        proof {
            assert forall|p: Seq<char>| self@.contains_key(p) implies exists|i: int|
                0 <= i < v@.len() && v@[i]@ == p by {
                lemma_bundle_entries_contains(self.positions@, p);
                let i = choose|i: int|
                    0 <= i < self.positions@.len() && self.positions@[i].bundle_id@ == p;
                assert(v@[i]@ == p);
            }
        }
        v
    }

    /// The recorded frame map for `bundle_id`, or none.
    pub fn bundle_windows(&self, bundle_id: &str) -> (r: Option<Vec<WindowEntry>>)
        requires
            self.wf(),
        ensures
            match r {
                Some(v) => self@.contains_key(bundle_id@) && window_entries_wf(v@)
                    && window_entries_map(v@) == self@[bundle_id@],
                None => !self@.contains_key(bundle_id@),
            },
    {
        match self.find_bundle(bundle_id) {
            Some(j) => {
                proof {
                    lemma_bundle_entries_get(self.positions@, j as int);
                }
                let src = &self.positions[j].windows;
                let mut v: Vec<WindowEntry> = Vec::new();
                let mut k: usize = 0;
                while k < src.len()
                    invariant
                        k <= src@.len(),
                        v@ == src@.take(k as int),
                    decreases src@.len() - k,
                {
                    v.push(WindowEntry { window_id: src[k].window_id, frame: src[k].frame });
                    proof {
                        assert(src@[k as int] == (WindowEntry {
                            window_id: src@[k as int].window_id,
                            frame: src@[k as int].frame,
                        }));
                        assert(v@ =~= src@.take(k as int + 1));
                    }
                    k = k + 1;
                }
                proof {
                    assert(v@ =~= src@);
                }
                Some(v)
            },
            None => {
                proof {
                    lemma_bundle_entries_contains(self.positions@, bundle_id@);
                }
                None
            },
        }
    }

    /// Replace (or create) the entry for `bundle_id` with `windows`.
    pub fn set_bundle(&mut self, bundle_id: &str, windows: Vec<WindowEntry>)
        requires
            old(self).wf(),
            window_entries_wf(windows@),
        ensures
            final(self).wf(),
            final(self)@ == old(self)@.insert(bundle_id@, window_entries_map(windows@)),
    {
        let owned = bundle_id.to_owned();
        match self.find_bundle(bundle_id) {
            Some(j) => {
                let e = BundleEntry { bundle_id: owned, windows };
                proof {
                    lemma_bundle_entries_update(self.positions@, j as int, e);
                }
                self.positions[j] = e;
            },
            None => {
                let ghost prev = self.positions@;
                self.positions.push(BundleEntry { bundle_id: owned, windows });
                proof {
                    assert(self.positions@.drop_last() =~= prev);
                }
            },
        }
    }

    /// Drop the entry for `bundle_id`, if any.
    pub fn remove_bundle(&mut self, bundle_id: &str)
        requires
            old(self).wf(),
        ensures
            final(self).wf(),
            final(self)@ == old(self)@.remove(bundle_id@),
    {
        match self.find_bundle(bundle_id) {
            Some(j) => {
                proof {
                    lemma_bundle_entries_remove(self.positions@, j as int);
                }
                let _ = self.positions.remove(j);
            },
            None => {
                proof {
                    lemma_bundle_entries_contains(self.positions@, bundle_id@);
                    assert(bundle_entries_map(self.positions@).remove(bundle_id@)
                        =~= bundle_entries_map(self.positions@));
                }
            },
        }
    }
}

/// All of a window's coordinates lie within the supported range.
pub open spec fn geom_bounded(w: WindowGeom) -> bool {
    &&& -COORD_LIMIT <= w.x <= COORD_LIMIT
    &&& -COORD_LIMIT <= w.y <= COORD_LIMIT
    &&& -COORD_LIMIT <= w.width <= COORD_LIMIT
    &&& -COORD_LIMIT <= w.height <= COORD_LIMIT
}

/// The window lies on the primary display, when its size is known.
pub open spec fn spec_on_primary(w: WindowGeom, screen: Option<ScreenSize>) -> bool {
    match screen {
        None => true,
        Some(s) => 0 <= w.x && w.x < s.width && 0 <= w.y && w.y < s.height,
    }
}

/// The window must be displaced: it sits on the primary display, is
/// neither minimized nor fullscreen, its top edge overlaps the reserved
/// strip (above `tbb`, the strip's lower edge), it is not already
/// recorded, and displacing it keeps a reasonable height.
pub open spec fn spec_should_offset(
    w: WindowGeom,
    recorded: Map<u32, WindowFrame>,
    screen: Option<ScreenSize>,
    tbb: int,
) -> bool {
    &&& spec_on_primary(w, screen)
    &&& !w.minimized
    &&& !w.fullscreen
    &&& w.y < tbb
    &&& !recorded.contains_key(w.window_id)
    &&& w.height - (tbb - w.y) > MIN_WINDOW_HEIGHT
}

/// The window's frame as enumeration reported it.
pub open spec fn spec_original_frame(w: WindowGeom) -> WindowFrame {
    WindowFrame { x: w.x, y: w.y, width: w.width, height: w.height }
}

/// The displacement for `w`: the top edge moves down to `tbb` and the
/// height shrinks by exactly the amount moved.
pub open spec fn spec_offset_action(w: WindowGeom, tbb: int) -> FrameAction {
    FrameAction {
        window_id: w.window_id,
        frame: WindowFrame {
            x: w.x,
            y: tbb as i64,
            width: w.width,
            height: (w.height - (tbb - w.y)) as i64,
        },
    }
}

/// The recorded-frame map and displacement actions after processing the
/// windows in order, starting from the recorded map `m`.
pub open spec fn spec_apply_windows(
    ws: Seq<WindowGeom>,
    m: Map<u32, WindowFrame>,
    screen: Option<ScreenSize>,
    tbb: int,
) -> (Map<u32, WindowFrame>, Seq<FrameAction>)
    decreases ws.len(),
{
    if ws.len() == 0 {
        (m, seq![])
    } else {
        let prev = spec_apply_windows(ws.drop_last(), m, screen, tbb);
        let w = ws.last();
        if spec_should_offset(w, prev.0, screen, tbb) {
            (
                prev.0.insert(w.window_id, spec_original_frame(w)),
                prev.1.push(spec_offset_action(w, tbb)),
            )
        } else {
            prev
        }
    }
}

/// Displace every window of the editor `bundle_id` that overlaps the
/// reserved strip (whose lower edge is `menu_bar_height + offset_y`),
/// recording each moved window's original frame.  Windows off the primary
/// display, minimized, fullscreen, already recorded, below the strip, or
/// too short to shrink are left untouched.  Returns the frames to set; the
/// store afterwards holds exactly the updated bundle entry (an entry is
/// created even when nothing moved, as a marker that an apply ran).
pub fn apply_offset(
    store: &mut OffsetStore,
    bundle_id: &str,
    windows: &Vec<WindowGeom>,
    primary_screen: Option<ScreenSize>,
    menu_bar_height: i64,
    offset_y: i64,
) -> (r: Vec<FrameAction>)
    requires
        old(store).wf(),
        -COORD_LIMIT <= menu_bar_height <= COORD_LIMIT,
        -COORD_LIMIT <= offset_y <= COORD_LIMIT,
        forall|i: int| 0 <= i < windows@.len() ==> geom_bounded(#[trigger] windows@[i]),
    ensures
        final(store).wf(),
        windows@.len() == 0 ==> final(store)@ == old(store)@ && r@ == Seq::<FrameAction>::empty(),
        windows@.len() > 0 ==> ({
            let bw0 = if old(store)@.contains_key(bundle_id@) {
                old(store)@[bundle_id@]
            } else {
                Map::<u32, WindowFrame>::empty()
            };
            let res = spec_apply_windows(
                windows@,
                bw0,
                primary_screen,
                menu_bar_height + offset_y,
            );
            final(store)@ == old(store)@.insert(bundle_id@, res.0) && r@ == res.1
        }),
{
    if windows.len() == 0 {
        return Vec::new();
    }
    let ghost bw0 = if old(store)@.contains_key(bundle_id@) {
        old(store)@[bundle_id@]
    } else {
        Map::<u32, WindowFrame>::empty()
    };
    let mut entries: Vec<WindowEntry> = match store.bundle_windows(bundle_id) {
        Some(v) => v,
        None => Vec::new(),
    };
    proof {
        assert(window_entries_map(entries@) == bw0);
    }
    let tbb: i64 = menu_bar_height + offset_y;
    let ghost stbb = menu_bar_height + offset_y as int;
    let mut actions: Vec<FrameAction> = Vec::new();
    let mut i: usize = 0;
    proof {
        assert(windows@.take(0) =~= Seq::<WindowGeom>::empty());
    }
    while i < windows.len()
        invariant
            old(store).wf(),
            store == old(store),
            tbb == menu_bar_height + offset_y,
            -2 * COORD_LIMIT <= tbb <= 2 * COORD_LIMIT,
            forall|j: int| 0 <= j < windows@.len() ==> geom_bounded(#[trigger] windows@[j]),
            i <= windows@.len(),
            window_entries_wf(entries@),
            window_entries_map(entries@) == spec_apply_windows(
                windows@.take(i as int),
                bw0,
                primary_screen,
                tbb as int,
            ).0,
            actions@ == spec_apply_windows(
                windows@.take(i as int),
                bw0,
                primary_screen,
                tbb as int,
            ).1,
        decreases windows@.len() - i,
    {
        let w = windows[i];
        proof {
            assert(windows@.take(i as int + 1).drop_last() =~= windows@.take(i as int));
            assert(windows@.take(i as int + 1).last() == windows@[i as int]);
        }
        let mut skip = false;
        match primary_screen {
            Some(s) => {
                if w.x < 0 || w.x >= s.width || w.y < 0 || w.y >= s.height {
                    skip = true;
                }
            },
            None => {},
        }
        if !skip && (w.minimized || w.fullscreen) {
            skip = true;
        }
        if !skip && w.y >= tbb {
            skip = true;
        }
        if !skip {
            if window_recorded(&entries, w.window_id) {
                skip = true;
            }
        }
        if !skip && w.height - (tbb - w.y) <= MIN_WINDOW_HEIGHT {
            skip = true;
        }
        proof {
            assert(skip == !spec_should_offset(
                windows@[i as int],
                window_entries_map(entries@),
                primary_screen,
                tbb as int,
            ));
        }
        if !skip {
            let ghost prev_entries = entries@;
            let ghost prev_actions = actions@;
            entries.push(
                WindowEntry {
                    window_id: w.window_id,
                    frame: WindowFrame { x: w.x, y: w.y, width: w.width, height: w.height },
                },
            );
            actions.push(
                FrameAction {
                    window_id: w.window_id,
                    frame: WindowFrame {
                        x: w.x,
                        y: tbb,
                        width: w.width,
                        height: w.height - (tbb - w.y),
                    },
                },
            );
            proof {
                lemma_window_entries_contains(prev_entries, w.window_id);
                assert(entries@.drop_last() =~= prev_entries);
                assert(entries@.last().frame == spec_original_frame(windows@[i as int]));
                assert(actions@.last() == spec_offset_action(windows@[i as int], tbb as int));
                assert(actions@ =~= prev_actions.push(
                    spec_offset_action(windows@[i as int], tbb as int),
                ));
            }
        }
        i = i + 1;
    }
    proof {
        assert(windows@.take(windows@.len() as int) =~= windows@);
    }
    store.set_bundle(bundle_id, entries);
    actions
}

/// Whether `entries` records window `wid`.
fn window_recorded(entries: &Vec<WindowEntry>, wid: u32) -> (r: bool)
    ensures
        r == window_entries_map(entries@).contains_key(wid),
{
    let mut k: usize = 0;
    while k < entries.len()
        invariant
            k <= entries@.len(),
            forall|j: int| 0 <= j < k ==> entries@[j].window_id != wid,
        decreases entries@.len() - k,
    {
        if entries[k].window_id == wid {
            proof {
                lemma_window_entries_contains(entries@, wid);
            }
            return true;
        }
        k = k + 1;
    }
    proof {
        lemma_window_entries_contains(entries@, wid);
    }
    false
}

/// The recorded frame for window `wid`, if any.
fn recorded_frame(entries: &Vec<WindowEntry>, wid: u32) -> (r: Option<WindowFrame>)
    requires
        window_entries_wf(entries@),
    ensures
        match r {
            Some(f) => window_entries_map(entries@).contains_key(wid) && window_entries_map(
                entries@,
            )[wid] == f,
            None => !window_entries_map(entries@).contains_key(wid),
        },
{
    let mut k: usize = 0;
    while k < entries.len()
        invariant
            window_entries_wf(entries@),
            k <= entries@.len(),
            forall|j: int| 0 <= j < k ==> entries@[j].window_id != wid,
        decreases entries@.len() - k,
    {
        if entries[k].window_id == wid {
            proof {
                lemma_window_entries_get(entries@, k as int);
            }
            return Some(entries[k].frame);
        }
        k = k + 1;
    }
    proof {
        lemma_window_entries_contains(entries@, wid);
    }
    None
}

/// The restore actions for the live windows `ws` given the recorded
/// frames `bw`: every recorded, non-minimized, non-fullscreen live window
/// gets its original frame back.
pub open spec fn spec_restore_actions(ws: Seq<WindowGeom>, bw: Map<u32, WindowFrame>) -> Seq<
    FrameAction,
>
    decreases ws.len(),
{
    if ws.len() == 0 {
        seq![]
    } else {
        let rest = spec_restore_actions(ws.drop_last(), bw);
        let w = ws.last();
        if bw.contains_key(w.window_id) && !w.minimized && !w.fullscreen {
            rest.push(FrameAction { window_id: w.window_id, frame: bw[w.window_id] })
        } else {
            rest
        }
    }
}

/// Restore the recorded original frames of `bundle_id`'s windows and drop
/// the bundle's record.  With nothing recorded the store is untouched;
/// when the editor is not running (or for windows that vanished, are
/// minimized or fullscreen) no frame is set, but the record is dropped all
/// the same — a window that cannot be restored is not retried.
pub fn restore_positions(
    store: &mut OffsetStore,
    bundle_id: &str,
    running: bool,
    current: &Vec<WindowGeom>,
) -> (r: Vec<FrameAction>)
    requires
        old(store).wf(),
    ensures
        final(store).wf(),
        (!old(store)@.contains_key(bundle_id@) || old(store)@[bundle_id@] == Map::<
            u32,
            WindowFrame,
        >::empty()) ==> final(store)@ == old(store)@ && r@ == Seq::<FrameAction>::empty(),
        old(store)@.contains_key(bundle_id@) && old(store)@[bundle_id@] != Map::<
            u32,
            WindowFrame,
        >::empty() ==> final(store)@ == old(store)@.remove(bundle_id@) && (running ==> r@
            == spec_restore_actions(current@, old(store)@[bundle_id@])) && (!running ==> r@
            == Seq::<FrameAction>::empty()),
{
    let entries = match store.bundle_windows(bundle_id) {
        Some(v) => v,
        None => {
            return Vec::new();
        },
    };
    if entries.len() == 0 {
        proof {
            assert(window_entries_map(entries@) =~= Map::<u32, WindowFrame>::empty());
        }
        return Vec::new();
    }
    proof {
        lemma_window_entries_get(entries@, 0);
        assert(window_entries_map(entries@) != Map::<u32, WindowFrame>::empty());
    }
    if !running {
        store.remove_bundle(bundle_id);
        return Vec::new();
    }
    let ghost bw = window_entries_map(entries@);
    let mut actions: Vec<FrameAction> = Vec::new();
    let mut i: usize = 0;
    proof {
        assert(current@.take(0) =~= Seq::<WindowGeom>::empty());
    }
    while i < current.len()
        invariant
            window_entries_wf(entries@),
            bw == window_entries_map(entries@),
            i <= current@.len(),
            actions@ == spec_restore_actions(current@.take(i as int), bw),
        decreases current@.len() - i,
    {
        let w = current[i];
        proof {
            assert(current@.take(i as int + 1).drop_last() =~= current@.take(i as int));
            assert(current@.take(i as int + 1).last() == current@[i as int]);
        }
        if !w.minimized && !w.fullscreen {
            match recorded_frame(&entries, w.window_id) {
                Some(f) => {
                    actions.push(FrameAction { window_id: w.window_id, frame: f });
                },
                None => {},
            }
        }
        i = i + 1;
    }
    proof {
        assert(current@.take(current@.len() as int) =~= current@);
    }
    store.remove_bundle(bundle_id);
    actions
}

/// The windows' geometry after the displacement actions of one apply run:
/// each displaced window sits at the strip's lower edge with its shrunk
/// height; the rest are unchanged.
pub open spec fn spec_after_geoms(
    ws: Seq<WindowGeom>,
    m: Map<u32, WindowFrame>,
    screen: Option<ScreenSize>,
    tbb: int,
) -> Seq<WindowGeom>
    decreases ws.len(),
{
    if ws.len() == 0 {
        seq![]
    } else {
        let prevm = spec_apply_windows(ws.drop_last(), m, screen, tbb).0;
        let w = ws.last();
        let w2 = if spec_should_offset(w, prevm, screen, tbb) {
            WindowGeom {
                window_id: w.window_id,
                x: w.x,
                y: tbb as i64,
                width: w.width,
                height: (w.height - (tbb - w.y)) as i64,
                minimized: w.minimized,
                fullscreen: w.fullscreen,
            }
        } else {
            w
        };
        spec_after_geoms(ws.drop_last(), m, screen, tbb).push(w2)
    }
}

proof fn lemma_apply_windows_monotonic(
    ws: Seq<WindowGeom>,
    m: Map<u32, WindowFrame>,
    screen: Option<ScreenSize>,
    tbb: int,
    k: u32,
)
    requires
        m.contains_key(k),
    ensures
        spec_apply_windows(ws, m, screen, tbb).0.contains_key(k),
    decreases ws.len(),
{
    if ws.len() > 0 {
        lemma_apply_windows_monotonic(ws.drop_last(), m, screen, tbb, k);
    }
}

proof fn lemma_apply_windows_prefix_keys(
    ws: Seq<WindowGeom>,
    m: Map<u32, WindowFrame>,
    screen: Option<ScreenSize>,
    tbb: int,
    i: int,
    k: u32,
)
    requires
        0 <= i <= ws.len(),
        spec_apply_windows(ws.take(i), m, screen, tbb).0.contains_key(k),
    ensures
        spec_apply_windows(ws, m, screen, tbb).0.contains_key(k),
    decreases ws.len() - i,
{
    if i == ws.len() {
        assert(ws.take(i) =~= ws);
    } else {
        assert(ws.take(i + 1).drop_last() =~= ws.take(i));
        assert(ws.take(i + 1).last() == ws[i]);
        assert(spec_apply_windows(ws.take(i + 1), m, screen, tbb).0.contains_key(k));
        lemma_apply_windows_prefix_keys(ws, m, screen, tbb, i + 1, k);
    }
}

proof fn lemma_second_run(
    ws: Seq<WindowGeom>,
    m: Map<u32, WindowFrame>,
    screen: Option<ScreenSize>,
    tbb: int,
    full: Map<u32, WindowFrame>,
)
    requires
        -2 * COORD_LIMIT <= tbb <= 2 * COORD_LIMIT,
        forall|i: int| 0 <= i < ws.len() ==> geom_bounded(#[trigger] ws[i]),
        forall|k: u32|
            spec_apply_windows(ws, m, screen, tbb).0.contains_key(k)
                ==> full.contains_key(k),
    ensures
        spec_apply_windows(spec_after_geoms(ws, m, screen, tbb), full, screen, tbb) == (
            full,
            Seq::<FrameAction>::empty(),
        ),
    decreases ws.len(),
{
    if ws.len() == 0 {
        assert(spec_after_geoms(ws, m, screen, tbb) =~= Seq::<WindowGeom>::empty());
        assert(spec_apply_windows(spec_after_geoms(ws, m, screen, tbb), full, screen, tbb) == (
            full,
            Seq::<FrameAction>::empty(),
        ));
    } else {
        let pre = ws.drop_last();
        let w = ws.last();
        let prevm = spec_apply_windows(pre, m, screen, tbb).0;
        assert(forall|k: u32|
            spec_apply_windows(pre, m, screen, tbb).0.contains_key(k) ==> full.contains_key(
                k,
            )) by {
            assert forall|k: u32|
                spec_apply_windows(pre, m, screen, tbb).0.contains_key(
                    k,
                ) implies full.contains_key(k) by {
                assert(ws.take(ws.len() - 1) =~= pre);
                lemma_apply_windows_prefix_keys(ws, m, screen, tbb, ws.len() - 1, k);
            }
        }
        lemma_second_run(pre, m, screen, tbb, full);
        let ws2 = spec_after_geoms(ws, m, screen, tbb);
        assert(ws2.drop_last() =~= spec_after_geoms(pre, m, screen, tbb));
        let w2 = ws2.last();
        assert(forall|i: int| 0 <= i < pre.len() ==> geom_bounded(#[trigger] pre[i]));
        if spec_should_offset(w, prevm, screen, tbb) {
            assert(geom_bounded(ws[ws.len() - 1]));
            assert(w2.y == tbb as i64);
            assert(w2.y as int == tbb);
            assert(!spec_should_offset(w2, full, screen, tbb));
        } else {
            assert(w2 == w);
            if spec_on_primary(w, screen) && !w.minimized && !w.fullscreen && w.y < tbb
                && w.height - (tbb - w.y) > MIN_WINDOW_HEIGHT {
                assert(prevm.contains_key(w.window_id));
                assert(spec_apply_windows(ws, m, screen, tbb).0.contains_key(w.window_id)) by {
                    lemma_apply_windows_monotonic(ws, prevm, screen, tbb, w.window_id);
                    assert(ws.take(ws.len() as int) =~= ws);
                    assert(spec_apply_windows(ws.take(ws.len() - 1), m, screen, tbb).0
                        == prevm);
                    lemma_apply_windows_prefix_keys(ws, m, screen, tbb, ws.len() - 1,
                        w.window_id);
                }
                assert(full.contains_key(w.window_id));
                assert(!spec_should_offset(w2, full, screen, tbb));
            } else {
                assert(!spec_should_offset(w2, full, screen, tbb));
            }
        }
        assert(spec_apply_windows(ws2, full, screen, tbb) == (
            full,
            Seq::<FrameAction>::empty(),
        ));
    }
}

/// Displacing twice in a row is a no-op the second time: with no
/// intervening restore and no external movement — the windows sit where
/// the first run's actions put them — a second run issues no action and
/// leaves the recorded frames exactly as the first run left them.
pub proof fn lemma_apply_offset_idempotent(
    ws: Seq<WindowGeom>,
    m: Map<u32, WindowFrame>,
    screen: Option<ScreenSize>,
    tbb: int,
)
    requires
        -2 * COORD_LIMIT <= tbb <= 2 * COORD_LIMIT,
        forall|i: int| 0 <= i < ws.len() ==> geom_bounded(#[trigger] ws[i]),
    ensures
        ({
            let first = spec_apply_windows(ws, m, screen, tbb);
            let moved = spec_after_geoms(ws, m, screen, tbb);
            let second = spec_apply_windows(moved, first.0, screen, tbb);
            second.0 == first.0 && second.1 == Seq::<FrameAction>::empty()
        }),
{
    lemma_second_run(ws, m, screen, tbb, spec_apply_windows(ws, m, screen, tbb).0);
}


/// All four coordinates lie within the supported range.
pub open spec fn frame_bounded(f: WindowFrame) -> bool {
    &&& -COORD_LIMIT <= f.x <= COORD_LIMIT
    &&& -COORD_LIMIT <= f.y <= COORD_LIMIT
    &&& -COORD_LIMIT <= f.width <= COORD_LIMIT
    &&& -COORD_LIMIT <= f.height <= COORD_LIMIT
}

/// The menu bar height a screen's frames imply: the screen height minus
/// the visible area's height and offset, never negative; a fixed fallback
/// when the screen could not be read (the geometry calls are only safe on
/// the UI thread).
pub open spec fn spec_menu_bar_height(frames: Option<(WindowFrame, WindowFrame)>) -> int {
    match frames {
        None => 25,
        Some(fv) => {
            let h = fv.0.height - fv.1.height - fv.1.y;
            if h > 0 {
                h as int
            } else {
                0
            }
        },
    }
}

/// The menu bar height from the primary screen's full and visible frames.
pub fn get_menu_bar_height(frames: Option<(WindowFrame, WindowFrame)>) -> (r: i64)
    requires
        frames matches Some(fv) ==> frame_bounded(fv.0) && frame_bounded(fv.1),
    ensures
        r as int == spec_menu_bar_height(frames),
{
    match frames {
        None => 25,
        Some((screen, visible)) => {
            let h = screen.height - visible.height - visible.y;
            if h > 0 {
                h
            } else {
                0
            }
        },
    }
}

/// The frame that fills the visible area below the overlay strip: at the
/// visible area's left edge, just below the menu bar and the strip, the
/// visible width, and the visible height less the strip.
pub open spec fn spec_maximize_frame(
    screen: WindowFrame,
    visible: WindowFrame,
    tab_bar_height: int,
) -> WindowFrame {
    let menu = spec_menu_bar_height(Some((screen, visible)));
    WindowFrame {
        x: visible.x,
        y: (menu + tab_bar_height) as i64,
        width: visible.width,
        height: (visible.height - tab_bar_height) as i64,
    }
}

/// Compute the maximize frame (origin top-left).  A degenerate result —
/// narrower or shorter than the minimum window size — is an error and no
/// frame is produced.
pub fn get_maximize_frame(screen: WindowFrame, visible: WindowFrame, tab_bar_height: i64) -> (r:
    Result<WindowFrame, String>)
    requires
        frame_bounded(screen),
        frame_bounded(visible),
        -COORD_LIMIT <= tab_bar_height <= COORD_LIMIT,
    ensures
        ({
            let f = spec_maximize_frame(screen, visible, tab_bar_height as int);
            if f.height < MIN_WINDOW_HEIGHT || f.width < MIN_WINDOW_HEIGHT {
                r matches Err(e) && e@ == "Calculated maximize frame too small"@
            } else {
                r == Ok::<WindowFrame, String>(f)
            }
        }),
{
    let menu = get_menu_bar_height(Some((screen, visible)));
    let f = WindowFrame {
        x: visible.x,
        y: menu + tab_bar_height,
        width: visible.width,
        height: visible.height - tab_bar_height,
    };
    if f.height < MIN_WINDOW_HEIGHT || f.width < MIN_WINDOW_HEIGHT {
        Err("Calculated maximize frame too small".to_owned())
    } else {
        Ok(f)
    }
}

/// Plan maximizing one window: fullscreen and minimized windows are left
/// alone; otherwise the window gets the maximize frame, and a degenerate
/// frame is an error.
pub fn maximize_window(
    window_id: u32,
    minimized: bool,
    fullscreen: bool,
    screen: WindowFrame,
    visible: WindowFrame,
    tab_bar_height: i64,
) -> (r: Result<Option<FrameAction>, String>)
    requires
        frame_bounded(screen),
        frame_bounded(visible),
        -COORD_LIMIT <= tab_bar_height <= COORD_LIMIT,
    ensures
        (minimized || fullscreen) ==> r == Ok::<Option<FrameAction>, String>(None),
        !(minimized || fullscreen) ==> ({
            let f = spec_maximize_frame(screen, visible, tab_bar_height as int);
            if f.height < MIN_WINDOW_HEIGHT || f.width < MIN_WINDOW_HEIGHT {
                r matches Err(e) && e@ == "Calculated maximize frame too small"@
            } else {
                r == Ok::<Option<FrameAction>, String>(Some(FrameAction { window_id, frame: f }))
            }
        }),
{
    if fullscreen || minimized {
        return Ok(None);
    }
    match get_maximize_frame(screen, visible, tab_bar_height) {
        Ok(f) => Ok(Some(FrameAction { window_id, frame: f })),
        Err(e) => Err(e),
    }
}

} // verus!
