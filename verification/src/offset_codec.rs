//! A canonical JSON form for the offset store, for crash recovery.
//!
//! The store is written as
//! `{"positions":{"<bundle>":{"<window id>":{"x":1,"y":2,"width":3,"height":4},...},...}}`
//! with no whitespace and the frame fields in fixed order.  The parser
//! accepts exactly this canonical form and returns none for anything else
//! (in particular for an older store layout whose window keys were title
//! strings).  Parsing what was serialized reproduces the store exactly.

use vstd::prelude::*;
use crate::offset::{
    BundleEntry,
    COORD_LIMIT,
    OffsetStore,
    WindowEntry,
    WindowFrame,
    bundle_entries_wf,
    frame_bounded,
    window_entries_wf,
};
use crate::strutil::{chars_append, chars_eq, chars_string, str_chars};

verus! {

/// `c` is a decimal digit.
pub open spec fn is_digit(c: char) -> bool {
    '0' <= c && c <= '9'
}

/// The numeric value of the digit `c`.
pub open spec fn digit_val(c: char) -> int
    recommends
        is_digit(c),
{
    c as int - '0' as int
}

/// The digit character for a value below ten.
pub open spec fn digit_char(v: int) -> char
    recommends
        0 <= v < 10,
{
    if v == 0 {
        '0'
    } else if v == 1 {
        '1'
    } else if v == 2 {
        '2'
    } else if v == 3 {
        '3'
    } else if v == 4 {
        '4'
    } else if v == 5 {
        '5'
    } else if v == 6 {
        '6'
    } else if v == 7 {
        '7'
    } else if v == 8 {
        '8'
    } else {
        '9'
    }
}

/// The digit character for a value below ten.
fn digit_to_char(v: u64) -> (c: char)
    requires
        v < 10,
    ensures
        c == digit_char(v as int),
{
    if v == 0 {
        '0'
    } else if v == 1 {
        '1'
    } else if v == 2 {
        '2'
    } else if v == 3 {
        '3'
    } else if v == 4 {
        '4'
    } else if v == 5 {
        '5'
    } else if v == 6 {
        '6'
    } else if v == 7 {
        '7'
    } else if v == 8 {
        '8'
    } else {
        '9'
    }
}

/// The decimal rendering of a nonnegative number.
pub open spec fn spec_render_nat(v: int) -> Seq<char>
    decreases v when v >= 0
{
    if v < 10 {
        seq![digit_char(v)]
    } else {
        spec_render_nat(v / 10).push(digit_char(v % 10))
    }
}

/// The decimal rendering of a signed number.
pub open spec fn spec_render_int(v: int) -> Seq<char> {
    if v < 0 {
        seq!['-'] + spec_render_nat(-v)
    } else {
        spec_render_nat(v)
    }
}

/// The canonical text of one frame.
pub open spec fn spec_ser_frame(f: WindowFrame) -> Seq<char> {
    "{\"x\":"@ + spec_render_int(f.x as int) + ",\"y\":"@ + spec_render_int(f.y as int)
        + ",\"width\":"@ + spec_render_int(f.width as int) + ",\"height\":"@ + spec_render_int(
        f.height as int,
    ) + seq!['}']
}

/// The canonical text of one window entry.
pub open spec fn spec_ser_window(w: WindowEntry) -> Seq<char> {
    seq!['"'] + spec_render_nat(w.window_id as int) + "\":"@ + spec_ser_frame(w.frame)
}

/// The canonical text of the window entries after the first, and the
/// closing brace.
pub open spec fn spec_ser_windows_rest(ws: Seq<WindowEntry>) -> Seq<char>
    decreases ws.len(),
{
    if ws.len() == 0 {
        seq!['}']
    } else {
        seq![','] + spec_ser_window(ws[0]) + spec_ser_windows_rest(ws.skip(1))
    }
}

/// The canonical text of a window map body (after its opening brace).
pub open spec fn spec_ser_windows(ws: Seq<WindowEntry>) -> Seq<char> {
    if ws.len() == 0 {
        seq!['}']
    } else {
        spec_ser_window(ws[0]) + spec_ser_windows_rest(ws.skip(1))
    }
}

/// The canonical text of one bundle entry.
pub open spec fn spec_ser_bundle(b: BundleEntry) -> Seq<char> {
    seq!['"'] + b.bundle_id@ + "\":{"@ + spec_ser_windows(b.windows@)
}

/// The canonical text of the bundle entries after the first, and the
/// closing brace.
pub open spec fn spec_ser_bundles_rest(bs: Seq<BundleEntry>) -> Seq<char>
    decreases bs.len(),
{
    if bs.len() == 0 {
        seq!['}']
    } else {
        seq![','] + spec_ser_bundle(bs[0]) + spec_ser_bundles_rest(bs.skip(1))
    }
}

/// The canonical text of the bundle map body (after its opening brace).
pub open spec fn spec_ser_bundles(bs: Seq<BundleEntry>) -> Seq<char> {
    if bs.len() == 0 {
        seq!['}']
    } else {
        spec_ser_bundle(bs[0]) + spec_ser_bundles_rest(bs.skip(1))
    }
}

/// The canonical text of the whole store.
pub open spec fn spec_ser_store(bs: Seq<BundleEntry>) -> Seq<char> {
    "{\"positions\":{"@ + spec_ser_bundles(bs) + seq!['}']
}

/// A bundle id the canonical form can carry: no quote, no backslash.
pub open spec fn json_safe(s: Seq<char>) -> bool {
    forall|i: int| 0 <= i < s.len() ==> s[i] != '"' && s[i] != '\\'
}

/// Every bundle id is safe and every frame bounded: what the canonical
/// form can carry.
pub open spec fn store_serializable(bs: Seq<BundleEntry>) -> bool {
    forall|i: int|
        0 <= i < bs.len() ==> json_safe(#[trigger] bs[i].bundle_id@) && (forall|j: int|
            0 <= j < bs[i].windows@.len() ==> frame_bounded(#[trigger] bs[i].windows@[j].frame))
}

/// Render a nonnegative number in decimal.
fn render_u64(v: u64) -> (r: Vec<char>)
    ensures
        r@ == spec_render_nat(v as int),
    decreases v,
{
    if v < 10 {
        let mut out: Vec<char> = Vec::new();
        out.push(digit_to_char(v));
        proof {
            assert(out@ =~= seq![digit_char(v as int)]);
        }
        out
    } else {
        let mut out = render_u64(v / 10);
        out.push(digit_to_char(v % 10));
        proof {
            assert(out@ =~= spec_render_nat(v as int));
        }
        out
    }
}

/// Render a signed number in decimal.
fn render_i64(v: i64) -> (r: Vec<char>)
    requires
        -COORD_LIMIT <= v <= COORD_LIMIT,
    ensures
        r@ == spec_render_int(v as int),
{
    if v < 0 {
        let mut out: Vec<char> = Vec::new();
        out.push('-');
        let mag = render_u64((-v) as u64);
        chars_append(&mut out, &mag);
        proof {
            assert(out@ =~= spec_render_int(v as int));
        }
        out
    } else {
        render_u64(v as u64)
    }
}

/// Append a literal to the output.
fn push_lit(out: &mut Vec<char>, lit: &str)
    ensures
        final(out)@ == old(out)@ + lit@,
{
    let lc = str_chars(lit);
    chars_append(out, &lc);
}

/// Serialize one frame.
fn ser_frame(out: &mut Vec<char>, f: &WindowFrame)
    requires
        frame_bounded(*f),
    ensures
        final(out)@ == old(out)@ + spec_ser_frame(*f),
{
    let ghost base = out@;
    push_lit(out, "{\"x\":");
    let xs = render_i64(f.x);
    chars_append(out, &xs);
    push_lit(out, ",\"y\":");
    let ys = render_i64(f.y);
    chars_append(out, &ys);
    push_lit(out, ",\"width\":");
    let ws = render_i64(f.width);
    chars_append(out, &ws);
    push_lit(out, ",\"height\":");
    let hs = render_i64(f.height);
    chars_append(out, &hs);
    out.push('}');
    proof {
        assert(out@ =~= base + spec_ser_frame(*f));
    }
}

/// Serialize one window entry.
fn ser_window(out: &mut Vec<char>, w: &WindowEntry)
    requires
        frame_bounded(w.frame),
    ensures
        final(out)@ == old(out)@ + spec_ser_window(*w),
{
    let ghost base = out@;
    out.push('"');
    let ids = render_u64(w.window_id as u64);
    chars_append(out, &ids);
    push_lit(out, "\":");
    ser_frame(out, &w.frame);
    proof {
        assert(out@ =~= base + spec_ser_window(*w));
    }
}

/// Serialize a bundle's window map body (after the opening brace).
fn ser_windows(out: &mut Vec<char>, ws: &Vec<WindowEntry>)
    requires
        forall|j: int| 0 <= j < ws@.len() ==> frame_bounded(#[trigger] ws@[j].frame),
    ensures
        final(out)@ == old(out)@ + spec_ser_windows(ws@),
{
    let ghost base = out@;
    if ws.len() == 0 {
        out.push('}');
        proof {
            assert(out@ =~= base + spec_ser_windows(ws@));
        }
        return ;
    }
    ser_window(out, &ws[0]);
    let mut k: usize = 1;
    proof {
        assert(out@ =~= base + spec_ser_window(ws@[0]));
    }
    while k < ws.len()
        invariant
            1 <= k <= ws@.len(),
            forall|j: int| 0 <= j < ws@.len() ==> frame_bounded(#[trigger] ws@[j].frame),
            out@ + spec_ser_windows_rest(ws@.skip(k as int)) == base + spec_ser_windows(ws@),
        decreases ws@.len() - k,
    {
        let ghost before = out@;
        out.push(',');
        ser_window(out, &ws[k]);
        proof {
            assert(ws@.skip(k as int)[0] == ws@[k as int]);
            assert(ws@.skip(k as int).skip(1) =~= ws@.skip(k as int + 1));
            assert(spec_ser_windows_rest(ws@.skip(k as int)) == seq![','] + spec_ser_window(
                ws@[k as int],
            ) + spec_ser_windows_rest(ws@.skip(k as int + 1)));
            assert(out@ + spec_ser_windows_rest(ws@.skip(k as int + 1)) =~= base
                + spec_ser_windows(ws@));
        }
        k = k + 1;
    }
    out.push('}');
    proof {
        assert(ws@.skip(ws@.len() as int) =~= Seq::<WindowEntry>::empty());
        assert(spec_ser_windows_rest(ws@.skip(ws@.len() as int)) == seq!['}']);
        assert(out@ =~= base + spec_ser_windows(ws@));
    }
}

/// Serialize the store into its canonical JSON text.
pub fn serialize_store(store: &OffsetStore) -> (r: String)
    requires
        store_serializable(store.positions@),
    ensures
        r@ == spec_ser_store(store.positions@),
{
    let bs = &store.positions;
    let mut out: Vec<char> = Vec::new();
    push_lit(&mut out, "{\"positions\":{");
    let ghost base = out@;
    if bs.len() == 0 {
        out.push('}');
        proof {
            assert(out@ =~= base + spec_ser_bundles(bs@));
        }
    } else {
        ser_bundle(&mut out, &bs[0]);
        let mut k: usize = 1;
        proof {
            assert(out@ =~= base + spec_ser_bundle(bs@[0]));
        }
        while k < bs.len()
            invariant
                1 <= k <= bs@.len(),
                store_serializable(bs@),
                out@ + spec_ser_bundles_rest(bs@.skip(k as int)) == base + spec_ser_bundles(bs@),
            decreases bs@.len() - k,
        {
            out.push(',');
            ser_bundle(&mut out, &bs[k]);
            proof {
                assert(bs@.skip(k as int)[0] == bs@[k as int]);
                assert(bs@.skip(k as int).skip(1) =~= bs@.skip(k as int + 1));
                assert(spec_ser_bundles_rest(bs@.skip(k as int)) == seq![','] + spec_ser_bundle(
                    bs@[k as int],
                ) + spec_ser_bundles_rest(bs@.skip(k as int + 1)));
                assert(out@ + spec_ser_bundles_rest(bs@.skip(k as int + 1)) =~= base
                    + spec_ser_bundles(bs@));
            }
            k = k + 1;
        }
        out.push('}');
        proof {
            assert(bs@.skip(bs@.len() as int) =~= Seq::<BundleEntry>::empty());
            assert(out@ =~= base + spec_ser_bundles(bs@));
        }
    }
    out.push('}');
    proof {
        assert(out@ =~= spec_ser_store(bs@));
    }
    chars_string(&out)
}

/// Serialize one bundle entry.
fn ser_bundle(out: &mut Vec<char>, b: &BundleEntry)
    requires
        json_safe(b.bundle_id@),
        forall|j: int| 0 <= j < b.windows@.len() ==> frame_bounded(#[trigger] b.windows@[j].frame),
    ensures
        final(out)@ == old(out)@ + spec_ser_bundle(*b),
{
    let ghost base = out@;
    out.push('"');
    let idc = str_chars(b.bundle_id.as_str());
    chars_append(out, &idc);
    push_lit(out, "\":{");
    ser_windows(out, &b.windows);
    proof {
        assert(out@ =~= base + spec_ser_bundle(*b));
    }
}

/// One parsed bundle, at the level of views.
pub struct BundleView {
    /// The bundle id's characters.
    pub id: Seq<char>,
    /// The recorded window entries.
    pub windows: Seq<WindowEntry>,
}

/// The views of a bundle entry list.
pub open spec fn positions_view(ps: Seq<BundleEntry>) -> Seq<BundleView> {
    Seq::new(ps.len(), |i: int| BundleView { id: ps[i].bundle_id@, windows: ps[i].windows@ })
}

/// First position at or after `i` that does not hold a digit.
pub open spec fn spec_digits_end(s: Seq<char>, i: int) -> int
    decreases s.len() - i when 0 <= i <= s.len()
{
    if i < s.len() && is_digit(s[i]) {
        spec_digits_end(s, i + 1)
    } else {
        i
    }
}

/// The decimal value of the digits `s[i..j]`.
pub open spec fn spec_digits_val(s: Seq<char>, i: int, j: int) -> int
    decreases j - i,
{
    if j <= i {
        0
    } else {
        spec_digits_val(s, i, j - 1) * 10 + digit_val(s[j - 1])
    }
}

/// Parse a decimal number at `i`: its value and the position after it,
/// none when no digit stands at `i` or the value exceeds `limit`.
pub open spec fn spec_parse_nat(s: Seq<char>, i: int, limit: int) -> Option<(int, int)> {
    let j = spec_digits_end(s, i);
    if j > i && spec_digits_val(s, i, j) <= limit {
        Some((spec_digits_val(s, i, j), j))
    } else {
        None
    }
}

/// Parse an optionally negated decimal number bounded by the coordinate
/// range.
pub open spec fn spec_parse_int(s: Seq<char>, i: int) -> Option<(int, int)> {
    if 0 <= i < s.len() && s[i] == '-' {
        match spec_parse_nat(s, i + 1, COORD_LIMIT as int) {
            None => None,
            Some((v, j)) => Some((-v, j)),
        }
    } else {
        spec_parse_nat(s, i, COORD_LIMIT as int)
    }
}

/// The position after `lit` when `lit` stands at `i`, none otherwise.
pub open spec fn spec_expect(s: Seq<char>, i: int, lit: Seq<char>) -> Option<int> {
    if 0 <= i && i + lit.len() <= s.len() && s.subrange(i, i + lit.len() as int) == lit {
        Some(i + lit.len() as int)
    } else {
        None
    }
}

/// First position at or after `i` holding a quote, or the length.
pub open spec fn spec_quote_end(s: Seq<char>, i: int) -> int
    decreases s.len() - i when 0 <= i <= s.len()
{
    if i < s.len() && s[i] != '"' {
        spec_quote_end(s, i + 1)
    } else {
        i
    }
}

/// Parse a quoted string (no escapes) at `i`: its content and the
/// position after the closing quote.
pub open spec fn spec_parse_string(s: Seq<char>, i: int) -> Option<(Seq<char>, int)> {
    if 0 <= i < s.len() && s[i] == '"' {
        let j = spec_quote_end(s, i + 1);
        if i + 1 <= j < s.len() {
            Some((s.subrange(i + 1, j), j + 1))
        } else {
            None
        }
    } else {
        None
    }
}

/// Parse one frame object at `i`.
pub open spec fn spec_parse_frame(s: Seq<char>, i: int) -> Option<(WindowFrame, int)> {
    match spec_expect(s, i, "{\"x\":"@) {
        None => None,
        Some(i1) => match spec_parse_int(s, i1) {
            None => None,
            Some((x, i2)) => match spec_expect(s, i2, ",\"y\":"@) {
                None => None,
                Some(i3) => match spec_parse_int(s, i3) {
                    None => None,
                    Some((y, i4)) => match spec_expect(s, i4, ",\"width\":"@) {
                        None => None,
                        Some(i5) => match spec_parse_int(s, i5) {
                            None => None,
                            Some((w, i6)) => match spec_expect(s, i6, ",\"height\":"@) {
                                None => None,
                                Some(i7) => match spec_parse_int(s, i7) {
                                    None => None,
                                    Some((h, i8)) => match spec_expect(s, i8, seq!['}']) {
                                        None => None,
                                        Some(i9) => Some(
                                            (
                                                WindowFrame {
                                                    x: x as i64,
                                                    y: y as i64,
                                                    width: w as i64,
                                                    height: h as i64,
                                                },
                                                i9,
                                            ),
                                        ),
                                    },
                                },
                            },
                        },
                    },
                },
            },
        },
    }
}

/// Parse one window entry (`"<id>":<frame>`) at `i`.
pub open spec fn spec_parse_window(s: Seq<char>, i: int) -> Option<(WindowEntry, int)> {
    match spec_expect(s, i, seq!['"']) {
        None => None,
        Some(i1) => match spec_parse_nat(s, i1, 0xffff_ffff) {
            None => None,
            Some((wid, i2)) => match spec_expect(s, i2, "\":"@) {
                None => None,
                Some(i3) => match spec_parse_frame(s, i3) {
                    None => None,
                    Some((f, i4)) => Some((WindowEntry { window_id: wid as u32, frame: f }, i4)),
                },
            },
        },
    }
}

/// Parse the window entries after the first, up to the closing brace.
pub open spec fn spec_parse_windows_rest(s: Seq<char>, i: int) -> Option<(Seq<WindowEntry>, int)>
    decreases s.len() - i when 0 <= i <= s.len()
{
    if i < s.len() && s[i] == '}' {
        Some((seq![], i + 1))
    } else if i < s.len() && s[i] == ',' {
        match spec_parse_window(s, i + 1) {
            None => None,
            Some((w, j)) => if i < j <= s.len() {
                match spec_parse_windows_rest(s, j) {
                    None => None,
                    Some((ws, k)) => Some((seq![w] + ws, k)),
                }
            } else {
                None
            },
        }
    } else {
        None
    }
}

/// Parse a window map body (after its opening brace).
pub open spec fn spec_parse_windows(s: Seq<char>, i: int) -> Option<(Seq<WindowEntry>, int)> {
    if 0 <= i < s.len() && s[i] == '}' {
        Some((seq![], i + 1))
    } else {
        match spec_parse_window(s, i) {
            None => None,
            Some((w, j)) => if i < j <= s.len() {
                match spec_parse_windows_rest(s, j) {
                    None => None,
                    Some((ws, k)) => Some((seq![w] + ws, k)),
                }
            } else {
                None
            },
        }
    }
}

/// Parse one bundle entry (`"<id>":{...}`) at `i`.
pub open spec fn spec_parse_bundle(s: Seq<char>, i: int) -> Option<(BundleView, int)> {
    match spec_parse_string(s, i) {
        None => None,
        Some((id, i1)) => match spec_expect(s, i1, ":{"@) {
            None => None,
            Some(i2) => match spec_parse_windows(s, i2) {
                None => None,
                Some((ws, i3)) => Some((BundleView { id, windows: ws }, i3)),
            },
        },
    }
}

/// Parse the bundle entries after the first, up to the closing brace.
pub open spec fn spec_parse_bundles_rest(s: Seq<char>, i: int) -> Option<(Seq<BundleView>, int)>
    decreases s.len() - i when 0 <= i <= s.len()
{
    if i < s.len() && s[i] == '}' {
        Some((seq![], i + 1))
    } else if i < s.len() && s[i] == ',' {
        match spec_parse_bundle(s, i + 1) {
            None => None,
            Some((b, j)) => if i < j <= s.len() {
                match spec_parse_bundles_rest(s, j) {
                    None => None,
                    Some((bs, k)) => Some((seq![b] + bs, k)),
                }
            } else {
                None
            },
        }
    } else {
        None
    }
}

/// Parse the bundle map body (after its opening brace).
pub open spec fn spec_parse_bundles(s: Seq<char>, i: int) -> Option<(Seq<BundleView>, int)> {
    if 0 <= i < s.len() && s[i] == '}' {
        Some((seq![], i + 1))
    } else {
        match spec_parse_bundle(s, i) {
            None => None,
            Some((b, j)) => if i < j <= s.len() {
                match spec_parse_bundles_rest(s, j) {
                    None => None,
                    Some((bs, k)) => Some((seq![b] + bs, k)),
                }
            } else {
                None
            },
        }
    }
}

/// Bundle ids unique, and window ids unique within each bundle.
pub open spec fn views_wf(bs: Seq<BundleView>) -> bool {
    &&& forall|i: int, j: int| 0 <= i < j < bs.len() ==> bs[i].id != bs[j].id
    &&& forall|i: int| 0 <= i < bs.len() ==> window_entries_wf(#[trigger] bs[i].windows)
}

/// Parse a whole canonical store document: every character consumed, keys
/// unique.
pub open spec fn spec_parse_store(s: Seq<char>) -> Option<Seq<BundleView>> {
    match spec_expect(s, 0, "{\"positions\":{"@) {
        None => None,
        Some(i) => match spec_parse_bundles(s, i) {
            None => None,
            Some((bs, j)) => match spec_expect(s, j, seq!['}']) {
                None => None,
                Some(k) => if k == s.len() && views_wf(bs) {
                    Some(bs)
                } else {
                    None
                },
            },
        },
    }
}

/// Check that `lit` stands at `i`.
fn expect(s: &Vec<char>, i: usize, lit: &str) -> (r: Option<usize>)
    ensures
        match r {
            Some(j) => spec_expect(s@, i as int, lit@) == Some(j as int) && i <= j <= s@.len(),
            None => spec_expect(s@, i as int, lit@) is None,
        },
{
    let lc = str_chars(lit);
    if lc.len() > s.len() || i > s.len() - lc.len() {
        proof {
            assert(i + lit@.len() > s@.len());
        }
        return None;
    }
    if crate::strutil::chars_matches_at(s, &lc, i) {
        proof {
            assert(s@.subrange(i as int, i as int + lit@.len()) == lit@);
        }
        Some(i + lc.len())
    } else {
        proof {
            assert(s@.subrange(i as int, i as int + lit@.len()) != lit@);
        }
        None
    }
}

/// Whether `c` is a decimal digit.
fn is_digit_char(c: char) -> (r: bool)
    ensures
        r == is_digit(c),
{
    '0' <= c && c <= '9'
}

/// The value of a digit character.
fn digit_value(c: char) -> (v: u64)
    requires
        is_digit(c),
    ensures
        v == digit_val(c),
        v < 10,
{
    (c as u64) - ('0' as u64)
}

/// Parse a decimal number at `i`, bounded by `limit`.
fn parse_nat(s: &Vec<char>, i: usize, limit: u64) -> (r: Option<(u64, usize)>)
    requires
        i <= s@.len(),
        limit <= 0x1000_0000_0000_0000,
    ensures
        match r {
            Some(p) => i < p.1 <= s@.len() && spec_parse_nat(s@, i as int, limit as int) == Some(
                (p.0 as int, p.1 as int),
            ),
            None => spec_parse_nat(s@, i as int, limit as int) is None,
        },
{
    let n = s.len();
    let mut j: usize = i;
    let mut acc: u64 = 0;
    let mut over = false;
    while j < n && is_digit_char(s[j])
        invariant
            i <= j <= n,
            n == s@.len(),
            limit <= 0x1000_0000_0000_0000,
            spec_digits_end(s@, i as int) == spec_digits_end(s@, j as int),
            !over ==> acc == spec_digits_val(s@, i as int, j as int) && acc <= limit,
            over ==> spec_digits_val(s@, i as int, j as int) > limit,
            spec_digits_val(s@, i as int, j as int) >= 0,
        decreases n - j,
    {
        let d = digit_value(s[j]);
        proof {
            assert(spec_digits_val(s@, i as int, j as int + 1) == spec_digits_val(
                s@,
                i as int,
                j as int,
            ) * 10 + digit_val(s@[j as int]));
        }
        if !over {
            let cand = acc * 10 + d;
            if cand > limit {
                over = true;
            } else {
                acc = cand;
            }
        } else {
            proof {
                assert(spec_digits_val(s@, i as int, j as int + 1) > limit);
            }
        }
        j = j + 1;
    }
    proof {
        assert(spec_digits_end(s@, j as int) == j as int);
    }
    if j == i {
        return None;
    }
    if over {
        return None;
    }
    Some((acc, j))
}

/// Parse an optionally negated decimal number bounded by the coordinate
/// range.
fn parse_int(s: &Vec<char>, i: usize) -> (r: Option<(i64, usize)>)
    requires
        i <= s@.len(),
    ensures
        match r {
            Some(p) => i < p.1 <= s@.len() && spec_parse_int(s@, i as int) == Some(
                (p.0 as int, p.1 as int),
            ),
            None => spec_parse_int(s@, i as int) is None,
        },
{
    if i < s.len() && s[i] == '-' {
        match parse_nat(s, i + 1, COORD_LIMIT as u64) {
            None => None,
            Some((v, j)) => Some((-(v as i64), j)),
        }
    } else {
        match parse_nat(s, i, COORD_LIMIT as u64) {
            None => None,
            Some((v, j)) => Some((v as i64, j)),
        }
    }
}

/// Parse a quoted string (no escapes) at `i`.
fn parse_string(s: &Vec<char>, i: usize) -> (r: Option<(Vec<char>, usize)>)
    requires
        i <= s@.len(),
    ensures
        match r {
            Some(p) => i < p.1 <= s@.len() && (spec_parse_string(s@, i as int) matches Some(q)
                && q.0 == p.0@ && q.1 == p.1 as int),
            None => spec_parse_string(s@, i as int) is None,
        },
{
    if i >= s.len() || s[i] != '"' {
        return None;
    }
    let n = s.len();
    let mut j: usize = i + 1;
    while j < n && s[j] != '"'
        invariant
            i + 1 <= j <= n,
            n == s@.len(),
            spec_quote_end(s@, i as int + 1) == spec_quote_end(s@, j as int),
        decreases n - j,
    {
        j = j + 1;
    }
    proof {
        assert(spec_quote_end(s@, j as int) == j as int);
    }
    if j >= n {
        return None;
    }
    let content = crate::strutil::chars_subrange(s, i + 1, j);
    Some((content, j + 1))
}

/// Parse one frame object at `i`.
fn parse_frame(s: &Vec<char>, i: usize) -> (r: Option<(WindowFrame, usize)>)
    requires
        i <= s@.len(),
    ensures
        match r {
            Some(p) => i < p.1 <= s@.len() && spec_parse_frame(s@, i as int) == Some(
                (p.0, p.1 as int),
            ),
            None => spec_parse_frame(s@, i as int) is None,
        },
{
    let i1 = match expect(s, i, "{\"x\":") {
        Some(j) => j,
        None => {
            return None;
        },
    };
    let (x, i2) = match parse_int(s, i1) {
        Some(p) => p,
        None => {
            return None;
        },
    };
    let i3 = match expect(s, i2, ",\"y\":") {
        Some(j) => j,
        None => {
            return None;
        },
    };
    let (y, i4) = match parse_int(s, i3) {
        Some(p) => p,
        None => {
            return None;
        },
    };
    let i5 = match expect(s, i4, ",\"width\":") {
        Some(j) => j,
        None => {
            return None;
        },
    };
    let (w, i6) = match parse_int(s, i5) {
        Some(p) => p,
        None => {
            return None;
        },
    };
    let i7 = match expect(s, i6, ",\"height\":") {
        Some(j) => j,
        None => {
            return None;
        },
    };
    let (h, i8) = match parse_int(s, i7) {
        Some(p) => p,
        None => {
            return None;
        },
    };
    proof {
        reveal_strlit("}");
        assert("}"@ =~= seq!['}']);
    }
    let i9 = match expect(s, i8, "}") {
        Some(j) => j,
        None => {
            return None;
        },
    };
    Some((WindowFrame { x, y, width: w, height: h }, i9))
}

/// Parse one window entry at `i`.
fn parse_window(s: &Vec<char>, i: usize) -> (r: Option<(WindowEntry, usize)>)
    requires
        i <= s@.len(),
    ensures
        match r {
            Some(p) => i < p.1 <= s@.len() && spec_parse_window(s@, i as int) == Some(
                (p.0, p.1 as int),
            ),
            None => spec_parse_window(s@, i as int) is None,
        },
{
    proof {
        reveal_strlit("\"");
        assert("\""@ =~= seq!['"']);
    }
    let i1 = match expect(s, i, "\"") {
        Some(j) => j,
        None => {
            return None;
        },
    };
    let (wid, i2) = match parse_nat(s, i1, 0xffff_ffff) {
        Some(p) => p,
        None => {
            return None;
        },
    };
    let i3 = match expect(s, i2, "\":") {
        Some(j) => j,
        None => {
            return None;
        },
    };
    let (f, i4) = match parse_frame(s, i3) {
        Some(p) => p,
        None => {
            return None;
        },
    };
    Some((WindowEntry { window_id: wid as u32, frame: f }, i4))
}

/// Parse the window entries after the first, up to the closing brace.
fn parse_windows_rest(s: &Vec<char>, i: usize) -> (r: Option<(Vec<WindowEntry>, usize)>)
    requires
        i <= s@.len(),
    ensures
        match r {
            Some(p) => i < p.1 <= s@.len() && (spec_parse_windows_rest(s@, i as int) matches Some(
                q,
            ) && q.0 == p.0@ && q.1 == p.1 as int),
            None => spec_parse_windows_rest(s@, i as int) is None,
        },
    decreases s@.len() - i,
{
    if i < s.len() && s[i] == '}' {
        let empty: Vec<WindowEntry> = Vec::new();
        proof {
            assert(empty@ =~= seq![]);
        }
        return Some((empty, i + 1));
    }
    if i < s.len() && s[i] == ',' {
        let (w, j) = match parse_window(s, i + 1) {
            Some(p) => p,
            None => {
                return None;
            },
        };
        let (rest, k) = match parse_windows_rest(s, j) {
            Some(p) => p,
            None => {
                return None;
            },
        };
        let mut out: Vec<WindowEntry> = Vec::new();
        out.push(w);
        let ghost restv = rest@;
        let mut t: usize = 0;
        while t < rest.len()
            invariant
                t <= rest@.len(),
                rest@ == restv,
                out@ == seq![w] + restv.take(t as int),
            decreases rest@.len() - t,
        {
            out.push(rest[t]);
            proof {
                assert(out@ =~= seq![w] + restv.take(t as int + 1));
            }
            t = t + 1;
        }
        proof {
            assert(out@ =~= seq![w] + restv);
        }
        return Some((out, k));
    }
    None
}

/// Parse a window map body (after its opening brace).
fn parse_windows(s: &Vec<char>, i: usize) -> (r: Option<(Vec<WindowEntry>, usize)>)
    requires
        i <= s@.len(),
    ensures
        match r {
            Some(p) => i < p.1 <= s@.len() && (spec_parse_windows(s@, i as int) matches Some(q)
                && q.0 == p.0@ && q.1 == p.1 as int),
            None => spec_parse_windows(s@, i as int) is None,
        },
{
    if i < s.len() && s[i] == '}' {
        let empty: Vec<WindowEntry> = Vec::new();
        proof {
            assert(empty@ =~= seq![]);
        }
        return Some((empty, i + 1));
    }
    let (w, j) = match parse_window(s, i) {
        Some(p) => p,
        None => {
            return None;
        },
    };
    let (rest, k) = match parse_windows_rest(s, j) {
        Some(p) => p,
        None => {
            return None;
        },
    };
    let mut out: Vec<WindowEntry> = Vec::new();
    out.push(w);
    let ghost restv = rest@;
    let mut t: usize = 0;
    while t < rest.len()
        invariant
            t <= rest@.len(),
            rest@ == restv,
            out@ == seq![w] + restv.take(t as int),
        decreases rest@.len() - t,
    {
        out.push(rest[t]);
        proof {
            assert(out@ =~= seq![w] + restv.take(t as int + 1));
        }
        t = t + 1;
    }
    proof {
        assert(out@ =~= seq![w] + restv);
    }
    Some((out, k))
}

/// Parse one bundle entry at `i`.
fn parse_bundle(s: &Vec<char>, i: usize) -> (r: Option<(BundleEntry, usize)>)
    requires
        i <= s@.len(),
    ensures
        match r {
            Some(p) => i < p.1 <= s@.len() && (spec_parse_bundle(s@, i as int) matches Some(q)
                && q.0.id == p.0.bundle_id@ && q.0.windows == p.0.windows@ && q.1 == p.1 as int),
            None => spec_parse_bundle(s@, i as int) is None,
        },
{
    let (idc, i1) = match parse_string(s, i) {
        Some(p) => p,
        None => {
            return None;
        },
    };
    let i2 = match expect(s, i1, ":{") {
        Some(j) => j,
        None => {
            return None;
        },
    };
    let (ws, i3) = match parse_windows(s, i2) {
        Some(p) => p,
        None => {
            return None;
        },
    };
    Some((BundleEntry { bundle_id: chars_string(&idc), windows: ws }, i3))
}

/// Parse the bundle entries after the first, up to the closing brace.
fn parse_bundles_rest(s: &Vec<char>, i: usize) -> (r: Option<(Vec<BundleEntry>, usize)>)
    requires
        i <= s@.len(),
    ensures
        match r {
            Some(p) => i < p.1 <= s@.len() && (spec_parse_bundles_rest(s@, i as int) matches Some(
                q,
            ) && q.0 == positions_view(p.0@) && q.1 == p.1 as int),
            None => spec_parse_bundles_rest(s@, i as int) is None,
        },
    decreases s@.len() - i,
{
    if i < s.len() && s[i] == '}' {
        let empty: Vec<BundleEntry> = Vec::new();
        proof {
            assert(positions_view(empty@) =~= Seq::<BundleView>::empty());
        }
        return Some((empty, i + 1));
    }
    if i < s.len() && s[i] == ',' {
        let (b, j) = match parse_bundle(s, i + 1) {
            Some(p) => p,
            None => {
                return None;
            },
        };
        let (mut rest, k) = match parse_bundles_rest(s, j) {
            Some(p) => p,
            None => {
                return None;
            },
        };
        let ghost restv = positions_view(rest@);
        let ghost bview = BundleView { id: b.bundle_id@, windows: b.windows@ };
        let mut out: Vec<BundleEntry> = Vec::new();
        out.push(b);
        proof {
            assert(positions_view(out@) + positions_view(rest@) =~= seq![bview] + restv);
        }
        while rest.len() > 0
            invariant
                positions_view(out@) + positions_view(rest@) == seq![bview] + restv,
            decreases rest@.len(),
        {
            let ghost prev_out = out@;
            let ghost prev_rest = rest@;
            let e = rest.remove(0);
            out.push(e);
            proof {
                assert(positions_view(out@) + positions_view(rest@) =~= positions_view(prev_out)
                    + positions_view(prev_rest));
            }
        }
        proof {
            assert(positions_view(rest@) =~= Seq::<BundleView>::empty());
            assert(positions_view(out@) =~= seq![bview] + restv);
        }
        return Some((out, k));
    }
    None
}

/// Parse the bundle map body (after its opening brace).
fn parse_bundles(s: &Vec<char>, i: usize) -> (r: Option<(Vec<BundleEntry>, usize)>)
    requires
        i <= s@.len(),
    ensures
        match r {
            Some(p) => i < p.1 <= s@.len() && (spec_parse_bundles(s@, i as int) matches Some(q)
                && q.0 == positions_view(p.0@) && q.1 == p.1 as int),
            None => spec_parse_bundles(s@, i as int) is None,
        },
{
    if i < s.len() && s[i] == '}' {
        let empty: Vec<BundleEntry> = Vec::new();
        proof {
            assert(positions_view(empty@) =~= Seq::<BundleView>::empty());
        }
        return Some((empty, i + 1));
    }
    let (b, j) = match parse_bundle(s, i) {
        Some(p) => p,
        None => {
            return None;
        },
    };
    let (mut rest, k) = match parse_bundles_rest(s, j) {
        Some(p) => p,
        None => {
            return None;
        },
    };
    let ghost restv = positions_view(rest@);
    let ghost bview = BundleView { id: b.bundle_id@, windows: b.windows@ };
    let mut out: Vec<BundleEntry> = Vec::new();
    out.push(b);
    proof {
        assert(positions_view(out@) + positions_view(rest@) =~= seq![bview] + restv);
    }
    while rest.len() > 0
        invariant
            positions_view(out@) + positions_view(rest@) == seq![bview] + restv,
        decreases rest@.len(),
    {
        let ghost prev_out = out@;
        let ghost prev_rest = rest@;
        let e = rest.remove(0);
        out.push(e);
        proof {
            assert(positions_view(out@) + positions_view(rest@) =~= positions_view(prev_out)
                + positions_view(prev_rest));
        }
    }
    proof {
        assert(positions_view(rest@) =~= Seq::<BundleView>::empty());
        assert(positions_view(out@) =~= seq![bview] + restv);
    }
    Some((out, k))
}

/// Whether all bundle ids in `entries` are pairwise distinct.
fn bundle_ids_unique(entries: &Vec<BundleEntry>) -> (r: bool)
    ensures
        r == (forall|a: int, b: int|
            0 <= a < b < entries@.len() ==> entries@[a].bundle_id@ != entries@[b].bundle_id@),
{
    let n = entries.len();
    let mut i: usize = 0;
    while i < n
        invariant
            n == entries@.len(),
            i <= n,
            forall|a: int, b: int|
                0 <= a < b < n && a < i ==> entries@[a].bundle_id@ != entries@[b].bundle_id@,
        decreases n - i,
    {
        let ic = str_chars(entries[i].bundle_id.as_str());
        let mut j: usize = i + 1;
        while j < n
            invariant
                n == entries@.len(),
                i < n,
                ic@ == entries@[i as int].bundle_id@,
                i + 1 <= j <= n,
                forall|b: int| i < b < j ==> entries@[i as int].bundle_id@ != entries@[b].bundle_id@,
            decreases n - j,
        {
            let jc = str_chars(entries[j].bundle_id.as_str());
            if chars_eq(&ic, &jc) {
                return false;
            }
            j = j + 1;
        }
        i = i + 1;
    }
    true
}

/// Whether all window ids in `ws` are pairwise distinct.
fn window_ids_unique(ws: &Vec<WindowEntry>) -> (r: bool)
    ensures
        r == window_entries_wf(ws@),
{
    let n = ws.len();
    let mut i: usize = 0;
    while i < n
        invariant
            n == ws@.len(),
            i <= n,
            forall|a: int, b: int|
                0 <= a < b < n && a < i ==> ws@[a].window_id != ws@[b].window_id,
        decreases n - i,
    {
        let wid = ws[i].window_id;
        let mut j: usize = i + 1;
        while j < n
            invariant
                n == ws@.len(),
                i < n,
                wid == ws@[i as int].window_id,
                i + 1 <= j <= n,
                forall|b: int| i < b < j ==> ws@[i as int].window_id != ws@[b].window_id,
            decreases n - j,
        {
            if ws[j].window_id == wid {
                return false;
            }
            j = j + 1;
        }
        i = i + 1;
    }
    true
}

/// Parse a canonical store document.  Returns none unless the whole text is
/// exactly one canonical store with unique bundle and window keys.
pub fn parse_store(s: &str) -> (r: Option<OffsetStore>)
    ensures
        match r {
            Some(st) => st.wf() && (spec_parse_store(s@) matches Some(bs) && bs == positions_view(
                st.positions@,
            )),
            None => spec_parse_store(s@) is None,
        },
{
    let sc = str_chars(s);
    let i = match expect(&sc, 0, "{\"positions\":{") {
        Some(j) => j,
        None => {
            return None;
        },
    };
    let (entries, j) = match parse_bundles(&sc, i) {
        Some(p) => p,
        None => {
            return None;
        },
    };
    proof {
        reveal_strlit("}");
        assert("}"@ =~= seq!['}']);
    }
    let k = match expect(&sc, j, "}") {
        Some(p) => p,
        None => {
            return None;
        },
    };
    if k != sc.len() {
        return None;
    }
    let ghost views = positions_view(entries@);
    proof {
        assert forall|a: int| 0 <= a < entries@.len() implies (#[trigger] views[a]).id
            == entries@[a].bundle_id@ && views[a].windows == entries@[a].windows@ by {}
        assert(spec_parse_store(s@) == (if views_wf(views) {
            Some(views)
        } else {
            None::<Seq<BundleView>>
        }));
    }
    let ids_ok = bundle_ids_unique(&entries);
    if !ids_ok {
        proof {
            let (a, b) = choose|a: int, b: int|
                0 <= a < b < entries@.len() && entries@[a].bundle_id@ == entries@[b].bundle_id@;
            assert(views[a].id == views[b].id);
            assert(!views_wf(views));
        }
        return None;
    }
    let mut t: usize = 0;
    while t < entries.len()
        invariant
            t <= entries@.len(),
            views == positions_view(entries@),
            spec_parse_store(s@) == (if views_wf(views) {
                Some(views)
            } else {
                None::<Seq<BundleView>>
            }),
            forall|a: int|
                0 <= a < entries@.len() ==> (#[trigger] views[a]).id == entries@[a].bundle_id@
                    && views[a].windows == entries@[a].windows@,
            forall|a: int, b: int|
                0 <= a < b < entries@.len() ==> entries@[a].bundle_id@ != entries@[b].bundle_id@,
            forall|a: int| 0 <= a < t ==> window_entries_wf(#[trigger] entries@[a].windows@),
        decreases entries@.len() - t,
    {
        if !window_ids_unique(&entries[t].windows) {
            proof {
                assert(!window_entries_wf(views[t as int].windows));
                assert(!views_wf(views));
            }
            return None;
        }
        t = t + 1;
    }
    proof {
        assert(bundle_entries_wf(entries@));
        assert(views_wf(views));
    }
    Some(OffsetStore { positions: entries })
}


proof fn lemma_render_nat_digits(v: int)
    requires
        v >= 0,
    ensures
        spec_render_nat(v).len() >= 1,
        forall|t: int| 0 <= t < spec_render_nat(v).len() ==> is_digit(#[trigger] spec_render_nat(v)[t]),
    decreases v,
{
    if v >= 10 {
        lemma_render_nat_digits(v / 10);
    }
}

proof fn lemma_digits_end_at(s: Seq<char>, i: int, j: int)
    requires
        0 <= i <= j <= s.len(),
        forall|t: int| i <= t < j ==> is_digit(#[trigger] s[t]),
        j == s.len() || !is_digit(s[j]),
    ensures
        spec_digits_end(s, i) == j,
    decreases j - i,
{
    if i < j {
        lemma_digits_end_at(s, i + 1, j);
    }
}

proof fn lemma_digits_val_render(s: Seq<char>, i: int, v: int)
    requires
        v >= 0,
        0 <= i,
        i + spec_render_nat(v).len() <= s.len(),
        s.subrange(i, i + spec_render_nat(v).len() as int) == spec_render_nat(v),
    ensures
        spec_digits_val(s, i, i + spec_render_nat(v).len() as int) == v,
    decreases v,
{
    let r = spec_render_nat(v);
    if v < 10 {
        assert(r == seq![digit_char(v)]);
        assert(r.len() == 1);
        assert(s[i] == s.subrange(i, i + 1)[0]);
        assert(s[i] == digit_char(v));
        assert(digit_val(digit_char(v)) == v);
        assert(spec_digits_val(s, i, i + 1) == spec_digits_val(s, i, i) * 10 + digit_val(s[i]));
        assert(spec_digits_val(s, i, i) == 0);
    } else {
        let rp = spec_render_nat(v / 10);
        assert(r == rp.push(digit_char(v % 10)));
        assert(s.subrange(i, i + rp.len() as int) =~= rp) by {
            assert forall|t: int| 0 <= t < rp.len() implies s.subrange(i, i + rp.len() as int)[t]
                == rp[t] by {
                assert(s.subrange(i, i + rp.len() as int)[t] == s[i + t]);
                assert(s.subrange(i, i + r.len() as int)[t] == s[i + t]);
                assert(s.subrange(i, i + r.len() as int)[t] == r[t]);
                assert(r[t] == rp.push(digit_char(v % 10))[t]);
                assert(rp.push(digit_char(v % 10))[t] == rp[t]);
            }
        }
        lemma_digits_val_render(s, i, v / 10);
        assert(s[i + r.len() - 1] == s.subrange(i, i + r.len() as int)[r.len() - 1]);
        assert(s[i + r.len() - 1] == digit_char(v % 10));
        assert(digit_val(digit_char(v % 10)) == v % 10);
        assert(spec_digits_val(s, i, i + r.len() as int) == spec_digits_val(
            s,
            i,
            i + r.len() - 1,
        ) * 10 + digit_val(s[i + r.len() - 1]));
        assert(i + r.len() - 1 == i + rp.len());
        assert(spec_digits_val(s, i, i + rp.len() as int) == v / 10);
        assert(v / 10 * 10 + v % 10 == v);
        assert(spec_digits_val(s, i, i + r.len() as int) == v);
    }
}

proof fn lemma_parse_nat_render(s: Seq<char>, i: int, v: int, limit: int)
    requires
        0 <= v <= limit,
        0 <= i,
        i + spec_render_nat(v).len() <= s.len(),
        s.subrange(i, i + spec_render_nat(v).len() as int) == spec_render_nat(v),
        i + spec_render_nat(v).len() == s.len() || !is_digit(s[i + spec_render_nat(v).len()]),
    ensures
        spec_parse_nat(s, i, limit) == Some((v, i + spec_render_nat(v).len() as int)),
{
    let r = spec_render_nat(v);
    lemma_render_nat_digits(v);
    assert forall|t: int| i <= t < i + r.len() implies is_digit(#[trigger] s[t]) by {
        assert(s[t] == s.subrange(i, i + r.len() as int)[t - i]);
    }
    lemma_digits_end_at(s, i, i + r.len() as int);
    lemma_digits_val_render(s, i, v);
}

proof fn lemma_parse_int_render(s: Seq<char>, i: int, v: int)
    requires
        -COORD_LIMIT <= v <= COORD_LIMIT,
        0 <= i,
        i + spec_render_int(v).len() <= s.len(),
        s.subrange(i, i + spec_render_int(v).len() as int) == spec_render_int(v),
        i + spec_render_int(v).len() == s.len() || !is_digit(s[i + spec_render_int(v).len()]),
    ensures
        spec_parse_int(s, i) == Some((v, i + spec_render_int(v).len() as int)),
{
    let r = spec_render_int(v);
    if v < 0 {
        let rp = spec_render_nat(-v);
        assert(r == seq!['-'] + rp);
        assert(s[i] == s.subrange(i, i + r.len() as int)[0]);
        assert(s[i] == '-');
        assert(s.subrange(i + 1, i + 1 + rp.len() as int) =~= rp) by {
            assert forall|t: int| 0 <= t < rp.len() implies s.subrange(
                i + 1,
                i + 1 + rp.len() as int,
            )[t] == rp[t] by {
                assert(s[i + 1 + t] == s.subrange(i, i + r.len() as int)[1 + t]);
            }
        }
        lemma_parse_nat_render(s, i + 1, -v, COORD_LIMIT as int);
    } else {
        lemma_render_nat_digits(v);
        assert(s[i] == s.subrange(i, i + r.len() as int)[0]);
        assert(is_digit(s[i]));
        assert(s[i] != '-');
        lemma_parse_nat_render(s, i, v, COORD_LIMIT as int);
    }
}

/// Splitting a known concatenation of `s` into its two halves.
proof fn lemma_peel(s: Seq<char>, i: int, a: Seq<char>, b: Seq<char>)
    requires
        0 <= i,
        i + a.len() + b.len() <= s.len(),
        s.subrange(i, i + a.len() + b.len()) == a + b,
    ensures
        s.subrange(i, i + a.len() as int) == a,
        s.subrange(i + a.len() as int, i + a.len() + b.len()) == b,
{
    assert(s.subrange(i, i + a.len() as int) =~= a) by {
        assert forall|t: int| 0 <= t < a.len() implies s.subrange(i, i + a.len() as int)[t]
            == a[t] by {
            assert(s[i + t] == s.subrange(i, i + a.len() + b.len())[t]);
        }
    }
    assert(s.subrange(i + a.len() as int, i + a.len() + b.len()) =~= b) by {
        assert forall|t: int| 0 <= t < b.len() implies s.subrange(
            i + a.len() as int,
            i + a.len() + b.len(),
        )[t] == b[t] by {
            assert(s[i + a.len() + t] == s.subrange(i, i + a.len() + b.len())[a.len() + t]);
        }
    }
}

proof fn lemma_expect_at(s: Seq<char>, i: int, lit: Seq<char>)
    requires
        0 <= i,
        i + lit.len() <= s.len(),
        s.subrange(i, i + lit.len() as int) == lit,
    ensures
        spec_expect(s, i, lit) == Some(i + lit.len() as int),
{
}

proof fn lemma_parse_frame_ser(s: Seq<char>, i: int, f: WindowFrame)
    requires
        frame_bounded(f),
        0 <= i,
        i + spec_ser_frame(f).len() <= s.len(),
        s.subrange(i, i + spec_ser_frame(f).len() as int) == spec_ser_frame(f),
    ensures
        spec_parse_frame(s, i) == Some((f, i + spec_ser_frame(f).len() as int)),
{
    reveal_strlit("{\"x\":");
    reveal_strlit(",\"y\":");
    reveal_strlit(",\"width\":");
    reveal_strlit(",\"height\":");
    let l0 = "{\"x\":"@;
    let n1 = spec_render_int(f.x as int);
    let l1 = ",\"y\":"@;
    let n2 = spec_render_int(f.y as int);
    let l2 = ",\"width\":"@;
    let n3 = spec_render_int(f.width as int);
    let l3 = ",\"height\":"@;
    let n4 = spec_render_int(f.height as int);
    let tail = seq!['}'];
    let whole = spec_ser_frame(f);
    assert(whole =~= l0 + (n1 + (l1 + (n2 + (l2 + (n3 + (l3 + (n4 + tail))))))));
    let p0 = i;
    lemma_peel(s, p0, l0, n1 + (l1 + (n2 + (l2 + (n3 + (l3 + (n4 + tail)))))));
    lemma_expect_at(s, p0, l0);
    let p1 = p0 + l0.len() as int;
    lemma_peel(s, p1, n1, l1 + (n2 + (l2 + (n3 + (l3 + (n4 + tail))))));
    let p2 = p1 + n1.len() as int;
    assert(s[p2] == s.subrange(p2, p2 + (l1 + (n2 + (l2 + (n3 + (l3 + (n4 + tail)))))).len() as int)[0]);
    assert(s[p2] == ',');
    lemma_parse_int_render(s, p1, f.x as int);
    lemma_peel(s, p2, l1, n2 + (l2 + (n3 + (l3 + (n4 + tail)))));
    lemma_expect_at(s, p2, l1);
    let p3 = p2 + l1.len() as int;
    lemma_peel(s, p3, n2, l2 + (n3 + (l3 + (n4 + tail))));
    let p4 = p3 + n2.len() as int;
    assert(s[p4] == s.subrange(p4, p4 + (l2 + (n3 + (l3 + (n4 + tail)))).len() as int)[0]);
    assert(s[p4] == ',');
    lemma_parse_int_render(s, p3, f.y as int);
    lemma_peel(s, p4, l2, n3 + (l3 + (n4 + tail)));
    lemma_expect_at(s, p4, l2);
    let p5 = p4 + l2.len() as int;
    lemma_peel(s, p5, n3, l3 + (n4 + tail));
    let p6 = p5 + n3.len() as int;
    assert(s[p6] == s.subrange(p6, p6 + (l3 + (n4 + tail)).len() as int)[0]);
    assert(s[p6] == ',');
    lemma_parse_int_render(s, p5, f.width as int);
    lemma_peel(s, p6, l3, n4 + tail);
    lemma_expect_at(s, p6, l3);
    let p7 = p6 + l3.len() as int;
    lemma_peel(s, p7, n4, tail);
    let p8 = p7 + n4.len() as int;
    assert(s[p8] == s.subrange(p8, p8 + 1)[0]);
    assert(s[p8] == '}');
    lemma_parse_int_render(s, p7, f.height as int);
    lemma_expect_at(s, p8, tail);
    let p9 = p8 + 1;
    assert(p9 == i + whole.len());
    assert((WindowFrame {
        x: (f.x as int) as i64,
        y: (f.y as int) as i64,
        width: (f.width as int) as i64,
        height: (f.height as int) as i64,
    }) == f);
}

proof fn lemma_parse_window_ser(s: Seq<char>, i: int, w: WindowEntry)
    requires
        frame_bounded(w.frame),
        0 <= i,
        i + spec_ser_window(w).len() <= s.len(),
        s.subrange(i, i + spec_ser_window(w).len() as int) == spec_ser_window(w),
    ensures
        spec_parse_window(s, i) == Some((w, i + spec_ser_window(w).len() as int)),
{
    reveal_strlit("\":");
    let q = seq!['"'];
    let n = spec_render_nat(w.window_id as int);
    let l = "\":"@;
    let fr = spec_ser_frame(w.frame);
    let whole = spec_ser_window(w);
    assert(whole =~= q + (n + (l + fr)));
    lemma_peel(s, i, q, n + (l + fr));
    lemma_expect_at(s, i, q);
    let p1 = i + 1;
    lemma_peel(s, p1, n, l + fr);
    let p2 = p1 + n.len() as int;
    assert(s[p2] == s.subrange(p2, p2 + (l + fr).len() as int)[0]);
    assert(s[p2] == '"');
    assert(!is_digit('"'));
    lemma_parse_nat_render(s, p1, w.window_id as int, 0xffff_ffff);
    lemma_peel(s, p2, l, fr);
    lemma_expect_at(s, p2, l);
    let p3 = p2 + l.len() as int;
    lemma_parse_frame_ser(s, p3, w.frame);
    assert((w.window_id as int) as u32 == w.window_id);
    assert((WindowEntry { window_id: w.window_id, frame: w.frame }) == w);
}

proof fn lemma_parse_windows_rest_ser(s: Seq<char>, i: int, ws: Seq<WindowEntry>)
    requires
        forall|j: int| 0 <= j < ws.len() ==> frame_bounded(#[trigger] ws[j].frame),
        0 <= i,
        i + spec_ser_windows_rest(ws).len() <= s.len(),
        s.subrange(i, i + spec_ser_windows_rest(ws).len() as int) == spec_ser_windows_rest(ws),
    ensures
        spec_parse_windows_rest(s, i) == Some((ws, i + spec_ser_windows_rest(ws).len() as int)),
    decreases ws.len(),
{
    if ws.len() == 0 {
        assert(s[i] == s.subrange(i, i + 1)[0]);
        assert(s[i] == '}');
        assert(ws =~= Seq::<WindowEntry>::empty());
    } else {
        let c = seq![','];
        let w0 = spec_ser_window(ws[0]);
        let rest = spec_ser_windows_rest(ws.skip(1));
        let whole = spec_ser_windows_rest(ws);
        assert(whole =~= c + (w0 + rest));
        lemma_peel(s, i, c, w0 + rest);
        assert(s[i] == s.subrange(i, i + 1)[0]);
        assert(s[i] == ',');
        let p1 = i + 1;
        lemma_peel(s, p1, w0, rest);
        lemma_parse_window_ser(s, p1, ws[0]);
        let p2 = p1 + w0.len() as int;
        assert(forall|j: int| 0 <= j < ws.skip(1).len() ==> frame_bounded(
            #[trigger] ws.skip(1)[j].frame,
        ));
        lemma_parse_windows_rest_ser(s, p2, ws.skip(1));
        assert(seq![ws[0]] + ws.skip(1) =~= ws);
    }
}

proof fn lemma_parse_windows_ser(s: Seq<char>, i: int, ws: Seq<WindowEntry>)
    requires
        forall|j: int| 0 <= j < ws.len() ==> frame_bounded(#[trigger] ws[j].frame),
        0 <= i,
        i + spec_ser_windows(ws).len() <= s.len(),
        s.subrange(i, i + spec_ser_windows(ws).len() as int) == spec_ser_windows(ws),
    ensures
        spec_parse_windows(s, i) == Some((ws, i + spec_ser_windows(ws).len() as int)),
{
    if ws.len() == 0 {
        assert(s[i] == s.subrange(i, i + 1)[0]);
        assert(s[i] == '}');
        assert(ws =~= Seq::<WindowEntry>::empty());
    } else {
        let w0 = spec_ser_window(ws[0]);
        let rest = spec_ser_windows_rest(ws.skip(1));
        let whole = spec_ser_windows(ws);
        assert(whole =~= w0 + rest);
        lemma_peel(s, i, w0, rest);
        assert(s[i] == s.subrange(i, i + w0.len() as int)[0]);
        assert(s[i] == '"');
        lemma_parse_window_ser(s, i, ws[0]);
        let p1 = i + w0.len() as int;
        assert(forall|j: int| 0 <= j < ws.skip(1).len() ==> frame_bounded(
            #[trigger] ws.skip(1)[j].frame,
        ));
        lemma_parse_windows_rest_ser(s, p1, ws.skip(1));
        assert(seq![ws[0]] + ws.skip(1) =~= ws);
    }
}

proof fn lemma_quote_end_at(s: Seq<char>, i: int, j: int)
    requires
        0 <= i <= j <= s.len(),
        forall|t: int| i <= t < j ==> s[t] != '"',
        j < s.len() && s[j] == '"',
    ensures
        spec_quote_end(s, i) == j,
    decreases j - i,
{
    if i < j {
        lemma_quote_end_at(s, i + 1, j);
    }
}

proof fn lemma_parse_string_ser(s: Seq<char>, i: int, id: Seq<char>)
    requires
        json_safe(id),
        0 <= i,
        i + id.len() + 2 <= s.len(),
        s.subrange(i, i + id.len() + 2) == seq!['"'] + id + seq!['"'],
    ensures
        spec_parse_string(s, i) == Some((id, i + id.len() + 2)),
{
    let whole = seq!['"'] + id + seq!['"'];
    assert(s[i] == s.subrange(i, i + id.len() + 2)[0]);
    assert(s[i] == '"');
    assert forall|t: int| i + 1 <= t < i + 1 + id.len() implies s[t] != '"' by {
        assert(s[t] == whole[t - i]);
        assert(whole[t - i] == id[t - i - 1]);
    }
    assert(s[i + 1 + id.len()] == whole[1 + id.len() as int]);
    assert(s[i + 1 + id.len()] == '"');
    lemma_quote_end_at(s, i + 1, i + 1 + id.len());
    assert(s.subrange(i + 1, i + 1 + id.len()) =~= id) by {
        assert forall|t: int| 0 <= t < id.len() implies s.subrange(i + 1, i + 1 + id.len())[t]
            == id[t] by {
            assert(s[i + 1 + t] == whole[1 + t]);
        }
    }
}

proof fn lemma_parse_bundle_ser(s: Seq<char>, i: int, b: BundleEntry)
    requires
        json_safe(b.bundle_id@),
        forall|j: int| 0 <= j < b.windows@.len() ==> frame_bounded(#[trigger] b.windows@[j].frame),
        0 <= i,
        i + spec_ser_bundle(b).len() <= s.len(),
        s.subrange(i, i + spec_ser_bundle(b).len() as int) == spec_ser_bundle(b),
    ensures
        (spec_parse_bundle(s, i) matches Some(p) && p.0.id == b.bundle_id@ && p.0.windows
            == b.windows@ && p.1 == i + spec_ser_bundle(b).len()),
{
    reveal_strlit("\":{");
    reveal_strlit(":{");
    let q = seq!['"'] + b.bundle_id@ + seq!['"'];
    let l = ":{"@;
    let wsx = spec_ser_windows(b.windows@);
    let whole = spec_ser_bundle(b);
    assert("\":{"@ =~= seq!['"'] + ":{"@);
    assert(whole =~= q + (l + wsx));
    lemma_peel(s, i, q, l + wsx);
    lemma_parse_string_ser(s, i, b.bundle_id@);
    let p1 = i + q.len() as int;
    lemma_peel(s, p1, l, wsx);
    lemma_expect_at(s, p1, l);
    let p2 = p1 + l.len() as int;
    lemma_parse_windows_ser(s, p2, b.windows@);
}

proof fn lemma_store_serializable_skip(bs: Seq<BundleEntry>)
    requires
        store_serializable(bs),
        bs.len() > 0,
    ensures
        store_serializable(bs.skip(1)),
{
    assert forall|a: int| 0 <= a < bs.skip(1).len() implies json_safe(
        #[trigger] bs.skip(1)[a].bundle_id@,
    ) && (forall|j: int|
        0 <= j < bs.skip(1)[a].windows@.len() ==> frame_bounded(
            #[trigger] bs.skip(1)[a].windows@[j].frame,
        )) by {
        assert(bs.skip(1).len() == bs.len() - 1);
        assert(0 <= a + 1 < bs.len());
        assert(bs.skip(1)[a] == bs[a + 1]);
        assert(json_safe(bs[a + 1].bundle_id@));
        assert(forall|j: int|
            0 <= j < bs[a + 1].windows@.len() ==> frame_bounded(
                #[trigger] bs[a + 1].windows@[j].frame,
            ));
    }
}

#[verifier::rlimit(50)]
proof fn lemma_parse_bundles_rest_ser(s: Seq<char>, i: int, bs: Seq<BundleEntry>)
    requires
        store_serializable(bs),
        0 <= i,
        i + spec_ser_bundles_rest(bs).len() <= s.len(),
        s.subrange(i, i + spec_ser_bundles_rest(bs).len() as int) == spec_ser_bundles_rest(bs),
    ensures
        spec_parse_bundles_rest(s, i) == Some(
            (positions_view(bs), i + spec_ser_bundles_rest(bs).len() as int),
        ),
    decreases bs.len(),
{
    if bs.len() == 0 {
        assert(s[i] == s.subrange(i, i + 1)[0]);
        assert(s[i] == '}');
        assert(positions_view(bs) =~= Seq::<BundleView>::empty());
    } else {
        let c = seq![','];
        let b0 = spec_ser_bundle(bs[0]);
        let rest = spec_ser_bundles_rest(bs.skip(1));
        let whole = spec_ser_bundles_rest(bs);
        assert(whole =~= c + (b0 + rest));
        lemma_peel(s, i, c, b0 + rest);
        assert(s[i] == s.subrange(i, i + 1)[0]);
        assert(s[i] == ',');
        let p1 = i + 1;
        lemma_peel(s, p1, b0, rest);
        assert(json_safe(bs[0].bundle_id@) && (forall|j: int|
            0 <= j < bs[0].windows@.len() ==> frame_bounded(#[trigger] bs[0].windows@[j].frame)));
        lemma_parse_bundle_ser(s, p1, bs[0]);
        let p2 = p1 + b0.len() as int;
        lemma_store_serializable_skip(bs);
        lemma_parse_bundles_rest_ser(s, p2, bs.skip(1));
        assert(seq![
            BundleView { id: bs[0].bundle_id@, windows: bs[0].windows@ },
        ] + positions_view(bs.skip(1)) =~= positions_view(bs));
    }
}

#[verifier::rlimit(50)]
proof fn lemma_parse_bundles_ser(s: Seq<char>, i: int, bs: Seq<BundleEntry>)
    requires
        store_serializable(bs),
        0 <= i,
        i + spec_ser_bundles(bs).len() <= s.len(),
        s.subrange(i, i + spec_ser_bundles(bs).len() as int) == spec_ser_bundles(bs),
    ensures
        spec_parse_bundles(s, i) == Some(
            (positions_view(bs), i + spec_ser_bundles(bs).len() as int),
        ),
{
    if bs.len() == 0 {
        assert(s[i] == s.subrange(i, i + 1)[0]);
        assert(s[i] == '}');
        assert(positions_view(bs) =~= Seq::<BundleView>::empty());
    } else {
        let b0 = spec_ser_bundle(bs[0]);
        let rest = spec_ser_bundles_rest(bs.skip(1));
        let whole = spec_ser_bundles(bs);
        assert(whole =~= b0 + rest);
        lemma_peel(s, i, b0, rest);
        assert(s[i] == s.subrange(i, i + b0.len() as int)[0]);
        assert(s[i] == '"');
        assert(json_safe(bs[0].bundle_id@) && (forall|j: int|
            0 <= j < bs[0].windows@.len() ==> frame_bounded(#[trigger] bs[0].windows@[j].frame)));
        lemma_parse_bundle_ser(s, i, bs[0]);
        let p1 = i + b0.len() as int;
        lemma_store_serializable_skip(bs);
        lemma_parse_bundles_rest_ser(s, p1, bs.skip(1));
        assert(seq![
            BundleView { id: bs[0].bundle_id@, windows: bs[0].windows@ },
        ] + positions_view(bs.skip(1)) =~= positions_view(bs));
    }
}

/// Round trip: parsing a serialized store reproduces it entry for entry,
/// and so, key for key and frame for frame, the identical map.
pub proof fn lemma_store_round_trip(bs: Seq<BundleEntry>)
    requires
        bundle_entries_wf(bs),
        store_serializable(bs),
    ensures
        spec_parse_store(spec_ser_store(bs)) == Some(positions_view(bs)),
{
    reveal_strlit("{\"positions\":{");
    let s = spec_ser_store(bs);
    let l0 = "{\"positions\":{"@;
    let body = spec_ser_bundles(bs);
    let tail = seq!['}'];
    assert(s =~= l0 + (body + tail));
    assert(s.subrange(0, s.len() as int) =~= s);
    lemma_peel(s, 0, l0, body + tail);
    lemma_expect_at(s, 0, l0);
    let p1 = l0.len() as int;
    lemma_peel(s, p1, body, tail);
    lemma_parse_bundles_ser(s, p1, bs);
    let p2 = p1 + body.len() as int;
    lemma_expect_at(s, p2, tail);
    assert(p2 + 1 == s.len());
    assert(views_wf(positions_view(bs))) by {
        assert forall|a: int| 0 <= a < bs.len() implies (#[trigger] positions_view(bs)[a]).id
            == bs[a].bundle_id@ && positions_view(bs)[a].windows == bs[a].windows@ by {}
    }
}

/// Whether `v` holds no quote and no backslash.
fn chars_json_safe(v: &Vec<char>) -> (r: bool)
    ensures
        r == json_safe(v@),
{
    let mut k: usize = 0;
    while k < v.len()
        invariant
            k <= v@.len(),
            forall|j: int| 0 <= j < k ==> v@[j] != '"' && v@[j] != '\\',
        decreases v@.len() - k,
    {
        if v[k] == '"' || v[k] == '\\' {
            return false;
        }
        k = k + 1;
    }
    true
}

/// Whether all four coordinates lie within the supported range.
fn frame_in_range(f: &WindowFrame) -> (r: bool)
    ensures
        r == frame_bounded(*f),
{
    -COORD_LIMIT <= f.x && f.x <= COORD_LIMIT && -COORD_LIMIT <= f.y && f.y <= COORD_LIMIT
        && -COORD_LIMIT <= f.width && f.width <= COORD_LIMIT && -COORD_LIMIT <= f.height
        && f.height <= COORD_LIMIT
}

/// Whether the store fits the canonical form: every bundle id free of
/// quotes and backslashes, and every frame within the coordinate range.
/// Exactly the premise [`serialize_store`] requires, so an unverified
/// caller can test it before serializing.
pub fn check_serializable(store: &OffsetStore) -> (r: bool)
    ensures
        r == store_serializable(store.positions@),
{
    let ghost bs = store.positions@;
    let n = store.positions.len();
    let mut i: usize = 0;
    while i < n
        invariant
            bs == store.positions@,
            n == bs.len(),
            i <= n,
            forall|a: int|
                0 <= a < i ==> json_safe(#[trigger] bs[a].bundle_id@) && (forall|j: int|
                    0 <= j < bs[a].windows@.len() ==> frame_bounded(
                        #[trigger] bs[a].windows@[j].frame,
                    )),
        decreases n - i,
    {
        let idc = str_chars(store.positions[i].bundle_id.as_str());
        if !chars_json_safe(&idc) {
            proof {
                assert(!json_safe(bs[i as int].bundle_id@));
                if store_serializable(bs) {
                    assert(json_safe(bs[i as int].bundle_id@));
                }
            }
            return false;
        }
        let ws = &store.positions[i].windows;
        let mut t: usize = 0;
        while t < ws.len()
            invariant
                bs == store.positions@,
                i < bs.len(),
                ws@ == bs[i as int].windows@,
                json_safe(bs[i as int].bundle_id@),
                t <= ws@.len(),
                forall|j: int| 0 <= j < t ==> frame_bounded(#[trigger] ws@[j].frame),
                forall|a: int|
                    0 <= a < i ==> json_safe(#[trigger] bs[a].bundle_id@) && (forall|j: int|
                        0 <= j < bs[a].windows@.len() ==> frame_bounded(
                            #[trigger] bs[a].windows@[j].frame,
                        )),
            decreases ws@.len() - t,
        {
            if !frame_in_range(&ws[t].frame) {
                proof {
                    assert(!frame_bounded(bs[i as int].windows@[t as int].frame));
                    if store_serializable(bs) {
                        assert(json_safe(bs[i as int].bundle_id@));
                        assert(frame_bounded(bs[i as int].windows@[t as int].frame));
                    }
                }
                return false;
            }
            t = t + 1;
        }
        proof {
            assert forall|a: int|
                0 <= a < i + 1 implies json_safe(#[trigger] bs[a].bundle_id@) && (forall|j: int|
                0 <= j < bs[a].windows@.len() ==> frame_bounded(
                    #[trigger] bs[a].windows@[j].frame,
                )) by {
                if a == i {
                    assert(json_safe(bs[a].bundle_id@));
                    assert(forall|j: int|
                        0 <= j < bs[a].windows@.len() ==> frame_bounded(
                            #[trigger] bs[a].windows@[j].frame,
                        ));
                }
            }
        }
        i = i + 1;
    }
    true
}

} // verus!
