//! Host paths and their guest form in the compiler's filesystem.
//!
//! The compiler runs with exactly one filesystem root. Every host path handed
//! to it is therefore rewritten as a POSIX path below that root: Windows
//! prefixes (`C:`, `\\?\C:`, `\\server\share`, ...) and root separators are
//! dropped, `.` components vanish, `..` components are kept, and the remaining
//! components are joined with `/`.
//!
//! The components of a path follow the host's path grammar. On Unix `/` is the
//! only separator. On Windows both `\` and `/` separate components, except
//! after a verbatim prefix (`\\?\`), where only `\` does.

use vstd::prelude::*;
use crate::text::chars_of;

verus! {

/// How a host spells its filesystem paths.
#[derive(Clone, Copy, Debug, PartialEq, Eq, Structural)]
pub enum PathStyle {
    Unix,
    Windows,
}

/// The kind of prefix that starts a Windows path.
#[derive(Clone, Copy, Debug, PartialEq, Eq, Structural)]
pub enum Prefix {
    /// `\\?\name`
    Verbatim,
    /// `\\?\UNC\server\share`
    VerbatimUnc,
    /// `\\?\C:`, with the drive letter in upper case
    VerbatimDisk(char),
    /// `\\.\device`
    DeviceNs,
    /// `\\server\share`
    Unc,
    /// `C:`, with the drive letter in upper case
    Disk(char),
}

impl Prefix {
    pub open spec fn spec_is_verbatim(&self) -> bool {
        ||| self is Verbatim
        ||| self is VerbatimUnc
        ||| self is VerbatimDisk
    }

    /// Whether, after this prefix, only `\` separates components.
    #[verifier::when_used_as_spec(spec_is_verbatim)]
    pub fn is_verbatim(&self) -> (b: bool)
        ensures
            b == self.spec_is_verbatim(),
    {
        match self {
            Prefix::Verbatim | Prefix::VerbatimUnc | Prefix::VerbatimDisk(_) => true,
            _ => false,
        }
    }
}

// ---------------------------------------------------------------------------
// The path grammar
// ---------------------------------------------------------------------------

/// A Windows separator: `\` always, `/` unless the path is verbatim.
pub open spec fn is_win_sep(c: char, verbatim: bool) -> bool {
    c == '\\' || (!verbatim && c == '/')
}

/// A component separator of `style` (`verbatim` only matters on Windows).
pub open spec fn is_sep(style: PathStyle, verbatim: bool, c: char) -> bool {
    match style {
        PathStyle::Unix => c == '/',
        PathStyle::Windows => is_win_sep(c, verbatim),
    }
}

pub open spec fn is_ascii_letter(c: char) -> bool {
    ('a' <= c && c <= 'z') || ('A' <= c && c <= 'Z')
}

pub open spec fn upper(c: char) -> char {
    if 'a' <= c && c <= 'z' {
        ((c as u8 - 32) as u8) as char
    } else {
        c
    }
}

/// The index of the first Windows separator in `s` at or after `from`, or the
/// length of `s` when there is none.
pub open spec fn sep_index(s: Seq<char>, from: int, verbatim: bool) -> int
    decreases s.len() - from,
{
    if from >= s.len() {
        s.len() as int
    } else if is_win_sep(s[from], verbatim) {
        from
    } else {
        sep_index(s, from + 1, verbatim)
    }
}

pub open spec fn starts_verbatim(s: Seq<char>) -> bool {
    s.len() >= 4 && s[0] == '\\' && s[1] == '\\' && s[2] == '?' && s[3] == '\\'
}

/// The prefix of a Windows path and its length in characters, the first of:
/// `\\?\UNC\server\share` (the share may be missing), `\\?\C:` when followed
/// by `\` or nothing, `\\?\name` up to the next `\`, `\\.\device` up to the
/// next separator, `\\server\share` with both parts non-empty, and `C:`. The
/// verbatim forms (`\\?\`) need literal backslashes; the others accept `/`
/// as well.
pub open spec fn windows_prefix(s: Seq<char>) -> Option<(Prefix, int)> {
    if starts_verbatim(s) {
        if s.len() >= 8 && s[4] == 'U' && s[5] == 'N' && s[6] == 'C' && s[7] == '\\' {
            let server_end = sep_index(s, 8, true);
            let share_end = if server_end < s.len() {
                sep_index(s, server_end + 1, true)
            } else {
                server_end
            };
            Some((Prefix::VerbatimUnc, if share_end > server_end + 1 { share_end } else { server_end }))
        } else if s.len() >= 6 && is_ascii_letter(s[4]) && s[5] == ':' && (s.len() == 6 || s[6]
            == '\\') {
            Some((Prefix::VerbatimDisk(upper(s[4])), 6))
        } else {
            Some((Prefix::Verbatim, sep_index(s, 4, true)))
        }
    } else if s.len() >= 2 && is_win_sep(s[0], false) && is_win_sep(s[1], false) {
        if s.len() >= 4 && s[2] == '.' && is_win_sep(s[3], false) {
            Some((Prefix::DeviceNs, sep_index(s, 4, false)))
        } else {
            let server_end = sep_index(s, 2, false);
            let share_end = if server_end < s.len() {
                sep_index(s, server_end + 1, false)
            } else {
                server_end
            };
            if server_end > 2 && share_end > server_end && share_end - server_end > 1 {
                Some((Prefix::Unc, share_end))
            } else {
                None
            }
        }
    } else if s.len() >= 2 && is_ascii_letter(s[0]) && s[1] == ':' {
        Some((Prefix::Disk(upper(s[0])), 2))
    } else {
        None
    }
}

/// The prefix of `s` under `style` (Unix paths have none).
pub open spec fn prefix_of(s: Seq<char>, style: PathStyle) -> Option<(Prefix, int)> {
    match style {
        PathStyle::Unix => None,
        PathStyle::Windows => windows_prefix(s),
    }
}

pub open spec fn prefix_len(s: Seq<char>, style: PathStyle) -> int {
    match prefix_of(s, style) {
        Some(p) => p.1,
        None => 0,
    }
}

pub open spec fn is_verbatim_path(s: Seq<char>, style: PathStyle) -> bool {
    match prefix_of(s, style) {
        Some(p) => p.0.spec_is_verbatim(),
        None => false,
    }
}

/// `s` cut at every separator: the pieces between separators, in order,
/// empty pieces included (so `n` separators give `n + 1` pieces).
pub open spec fn split(s: Seq<char>, style: PathStyle, verbatim: bool) -> Seq<Seq<char>>
    decreases s.len(),
{
    if s.len() == 0 {
        seq![Seq::empty()]
    } else {
        let prev = split(s.drop_last(), style, verbatim);
        if is_sep(style, verbatim, s.last()) {
            prev.push(Seq::empty())
        } else {
            prev.update(prev.len() - 1, prev.last().push(s.last()))
        }
    }
}

/// What one piece contributes to a guest path: nothing for an empty piece or
/// `.`, otherwise `/` followed by the piece.
pub open spec fn guest_piece(piece: Seq<char>) -> Seq<char> {
    if piece.len() == 0 || piece == seq!['.'] {
        Seq::empty()
    } else {
        seq!['/'] + piece
    }
}

/// The pieces' contributions, concatenated in order.
pub open spec fn render(pieces: Seq<Seq<char>>) -> Seq<char>
    decreases pieces.len(),
{
    if pieces.len() == 0 {
        Seq::empty()
    } else {
        render(pieces.drop_last()) + guest_piece(pieces.last())
    }
}

/// The pieces of `s` after its prefix.
pub open spec fn body_pieces(s: Seq<char>, style: PathStyle) -> Seq<Seq<char>> {
    split(s.skip(prefix_len(s, style)), style, is_verbatim_path(s, style))
}

/// The guest path of host path `s`: its components after the prefix, each as
/// `/name`, with `.` dropped; `/` when nothing is left.
pub open spec fn guest_path(s: Seq<char>, style: PathStyle) -> Seq<char> {
    let r = render(body_pieces(s, style));
    if r.len() == 0 {
        seq!['/']
    } else {
        r
    }
}

// ---------------------------------------------------------------------------
// Facts about the grammar
// ---------------------------------------------------------------------------

pub proof fn lemma_split_nonempty(s: Seq<char>, style: PathStyle, verbatim: bool)
    ensures
        split(s, style, verbatim).len() >= 1,
    decreases s.len(),
{
    if s.len() > 0 {
        lemma_split_nonempty(s.drop_last(), style, verbatim);
    }
}


/// No piece of `pieces` holds a separator of `style` (`verbatim` as given).
pub open spec fn pieces_free_of_seps(pieces: Seq<Seq<char>>, style: PathStyle, verbatim: bool) -> bool {
    forall|k: int, j: int|
        0 <= k < pieces.len() && 0 <= j < pieces[k].len() ==> !is_sep(
            style,
            verbatim,
            #[trigger] pieces[k][j],
        )
}

pub proof fn lemma_split_pieces_free(s: Seq<char>, style: PathStyle, verbatim: bool)
    ensures
        pieces_free_of_seps(split(s, style, verbatim), style, verbatim),
    decreases s.len(),
{
    if s.len() > 0 {
        lemma_split_pieces_free(s.drop_last(), style, verbatim);
        lemma_split_nonempty(s.drop_last(), style, verbatim);
        let prev = split(s.drop_last(), style, verbatim);
        let cur = split(s, style, verbatim);
        assert forall|k: int, j: int|
            0 <= k < cur.len() && 0 <= j < cur[k].len() implies !is_sep(
            style,
            verbatim,
            #[trigger] cur[k][j],
        ) by {
            if !is_sep(style, verbatim, s.last()) && k == prev.len() - 1 {
                assert(cur[k] == prev.last().push(s.last()));
                if j < prev.last().len() {
                    assert(cur[k][j] == prev[k][j]);
                }
            } else if k < prev.len() {
                assert(cur[k] == prev[k]);
            }
        }
    }
}

/// Appending text without separators only extends the last piece.
pub proof fn lemma_split_extend(y: Seq<char>, t: Seq<char>, style: PathStyle, verbatim: bool)
    requires
        forall|j: int| 0 <= j < t.len() ==> !is_sep(style, verbatim, #[trigger] t[j]),
    ensures
        split(y + t, style, verbatim) == split(y, style, verbatim).update(
            split(y, style, verbatim).len() - 1,
            split(y, style, verbatim).last() + t,
        ),
    decreases t.len(),
{
    lemma_split_nonempty(y, style, verbatim);
    let sy = split(y, style, verbatim);
    if t.len() == 0 {
        assert(y + t =~= y);
        assert(sy.last() + t =~= sy.last());
        assert(sy.update(sy.len() - 1, sy.last()) =~= sy);
    } else {
        let t0 = t.drop_last();
        lemma_split_extend(y, t0, style, verbatim);
        assert((y + t).drop_last() =~= y + t0);
        assert((y + t).last() == t.last());
        assert(!is_sep(style, verbatim, t[t.len() - 1]));
        let prev = split(y + t0, style, verbatim);
        assert(prev.last() == sy.last() + t0);
        assert((sy.last() + t0).push(t.last()) =~= sy.last() + t);
        assert(split(y + t, style, verbatim) =~= sy.update(sy.len() - 1, sy.last() + t));
    }
}

/// A separator followed by separator-free text adds exactly one piece.
pub proof fn lemma_split_sep_piece(x: Seq<char>, piece: Seq<char>, style: PathStyle)
    requires
        forall|j: int| 0 <= j < piece.len() ==> !is_sep(style, false, #[trigger] piece[j]),
    ensures
        split(x + seq!['/'] + piece, style, false) == split(x, style, false).push(piece),
{
    let y = x + seq!['/'];
    assert(y.drop_last() =~= x);
    assert(y.last() == '/');
    let sx = split(x, style, false);
    assert(split(y, style, false) == sx.push(Seq::empty()));
    lemma_split_extend(y, piece, style, false);
    assert(Seq::<char>::empty() + piece =~= piece);
    assert(sx.push(Seq::empty()).update(sx.len() as int, piece) =~= sx.push(piece));
}

/// Cutting `x + y` at separators: the pieces of `x`, with the last one
/// continued by the first piece of `y`, then the other pieces of `y`.
pub proof fn lemma_split_concat(x: Seq<char>, y: Seq<char>, style: PathStyle, verbatim: bool)
    ensures
        ({
            let sx = split(x, style, verbatim);
            let sy = split(y, style, verbatim);
            split(x + y, style, verbatim) == sx.drop_last() + seq![sx.last() + sy[0]]
                + sy.drop_first()
        }),
    decreases y.len(),
{
    lemma_split_nonempty(x, style, verbatim);
    let sx = split(x, style, verbatim);
    let sy = split(y, style, verbatim);
    if y.len() == 0 {
        assert(x + y =~= x);
        assert(sy =~= seq![Seq::<char>::empty()]);
        assert(sx.last() + Seq::<char>::empty() =~= sx.last());
        assert(sx.drop_last() + seq![sx.last()] + sy.drop_first() =~= sx);
    } else {
        let y0 = y.drop_last();
        let c = y.last();
        lemma_split_concat(x, y0, style, verbatim);
        lemma_split_nonempty(y0, style, verbatim);
        let sy0 = split(y0, style, verbatim);
        assert((x + y).drop_last() =~= x + y0);
        assert((x + y).last() == c);
        let prev = sx.drop_last() + seq![sx.last() + sy0[0]] + sy0.drop_first();
        assert(split(x + y0, style, verbatim) == prev);
        if is_sep(style, verbatim, c) {
            assert(sy == sy0.push(Seq::empty()));
            assert(sy[0] == sy0[0]);
            assert(sy.drop_first() =~= sy0.drop_first().push(Seq::empty()));
            assert(prev.push(Seq::empty()) =~= sx.drop_last() + seq![sx.last() + sy[0]]
                + sy.drop_first());
        } else {
            assert(sy == sy0.update(sy0.len() - 1, sy0.last().push(c)));
            if sy0.len() == 1 {
                assert(sy[0] == sy0[0].push(c));
                assert((sx.last() + sy0[0]).push(c) =~= sx.last() + sy[0]);
                assert(prev.update(prev.len() - 1, prev.last().push(c)) =~= sx.drop_last() + seq![
                    sx.last() + sy[0],
                ] + sy.drop_first());
            } else {
                assert(sy[0] == sy0[0]);
                assert(sy.drop_first() =~= sy0.drop_first().update(
                    sy0.drop_first().len() - 1,
                    sy0.last().push(c),
                ));
                assert(prev.update(prev.len() - 1, prev.last().push(c)) =~= sx.drop_last() + seq![
                    sx.last() + sy[0],
                ] + sy.drop_first());
            }
        }
    }
}

/// The rendering of two lists of pieces one after the other.
pub proof fn lemma_render_concat(a: Seq<Seq<char>>, b: Seq<Seq<char>>)
    ensures
        render(a + b) == render(a) + render(b),
    decreases b.len(),
{
    if b.len() == 0 {
        assert(a + b =~= a);
        assert(render(a) + Seq::<char>::empty() =~= render(a));
    } else {
        lemma_render_concat(a, b.drop_last());
        assert((a + b).drop_last() =~= a + b.drop_last());
        assert((a + b).last() == b.last());
        assert(render(a + b) =~= render(a) + render(b));
    }
}

/// A component that counts: neither empty nor `.`.
pub open spec fn is_good_piece(p: Seq<char>) -> bool {
    p.len() > 0 && p != seq!['.']
}

pub open spec fn all_good(xs: Seq<Seq<char>>) -> bool {
    forall|j: int| 0 <= j < xs.len() ==> is_good_piece(#[trigger] xs[j])
}

/// Whether every counting component of `pieces`, cut again at Windows
/// separators, consists only of counting components (so that a guest path
/// built from `pieces` reads back as the same components).
pub open spec fn pieces_survive_resplit(pieces: Seq<Seq<char>>) -> bool {
    forall|k: int|
        0 <= k < pieces.len() && is_good_piece(pieces[k]) ==> all_good(
            #[trigger] split(pieces[k], PathStyle::Windows, false),
        )
}

pub open spec fn no_backslash(pieces: Seq<Seq<char>>) -> bool {
    forall|k: int, j: int|
        0 <= k < pieces.len() && 0 <= j < pieces[k].len() ==> #[trigger] pieces[k][j] != '\\'
}

/// The pieces joined by `/`.
pub open spec fn slash_join(xs: Seq<Seq<char>>) -> Seq<char>
    decreases xs.len(),
{
    if xs.len() == 0 {
        Seq::empty()
    } else if xs.len() == 1 {
        xs[0]
    } else {
        slash_join(xs.drop_last()) + seq!['/'] + xs.last()
    }
}

pub proof fn lemma_slash_join_split(t: Seq<char>)
    requires
        forall|j: int| 0 <= j < t.len() ==> #[trigger] t[j] != '\\',
    ensures
        slash_join(split(t, PathStyle::Windows, false)) == t,
    decreases t.len(),
{
    let w = PathStyle::Windows;
    if t.len() == 0 {
        assert(split(t, w, false) =~= seq![Seq::<char>::empty()]);
        assert(t =~= Seq::<char>::empty());
    } else {
        let t0 = t.drop_last();
        let c = t.last();
        assert forall|j: int| 0 <= j < t0.len() implies #[trigger] t0[j] != '\\' by {
            assert(t0[j] == t[j]);
        }
        lemma_slash_join_split(t0);
        lemma_split_nonempty(t0, w, false);
        let s0 = split(t0, w, false);
        assert(c == t[t.len() - 1]);
        if c == '/' {
            assert(split(t, w, false) == s0.push(Seq::empty()));
            assert(s0.push(Seq::<char>::empty()).drop_last() =~= s0);
            assert(t0 + seq!['/'] + Seq::<char>::empty() =~= t);
        } else {
            let s1 = s0.update(s0.len() - 1, s0.last().push(c));
            assert(split(t, w, false) == s1);
            if s0.len() == 1 {
                assert(s0.last() == t0);
                assert(t0.push(c) =~= t);
            } else {
                assert(s1.drop_last() =~= s0.drop_last());
                assert(slash_join(s0) == slash_join(s0.drop_last()) + seq!['/'] + s0.last());
                assert(slash_join(s0.drop_last()) + seq!['/'] + s0.last().push(c) =~= t0.push(c));
                assert(t0.push(c) =~= t);
            }
        }
    }
}

pub proof fn lemma_render_all_good(xs: Seq<Seq<char>>)
    requires
        all_good(xs),
    ensures
        render(xs) == if xs.len() == 0 {
            Seq::<char>::empty()
        } else {
            seq!['/'] + slash_join(xs)
        },
    decreases xs.len(),
{
    if xs.len() > 0 {
        let init = xs.drop_last();
        assert forall|j: int| 0 <= j < init.len() implies is_good_piece(#[trigger] init[j]) by {
            assert(init[j] == xs[j]);
        }
        lemma_render_all_good(init);
        assert(is_good_piece(xs[xs.len() - 1]));
        assert(guest_piece(xs.last()) == seq!['/'] + xs.last());
        if xs.len() == 1 {
            assert(render(init) =~= Seq::<char>::empty());
            assert(render(xs) =~= seq!['/'] + xs[0]);
        } else {
            assert(render(xs) =~= seq!['/'] + slash_join(xs));
        }
    }
}

/// A piece that starts with `/` begins with an empty piece when cut again.
proof fn lemma_leading_slash_gives_empty_piece(p: Seq<char>)
    requires
        p.len() > 0,
        p[0] == '/',
    ensures
        split(p, PathStyle::Windows, false)[0] == Seq::<char>::empty(),
{
    let w = PathStyle::Windows;
    let one = seq!['/'];
    assert(p =~= one + p.skip(1));
    lemma_split_concat(one, p.skip(1), w, false);
    assert(one.drop_last() =~= Seq::<char>::empty());
    let e = Seq::<char>::empty();
    assert(split(one, w, false) == split(e, w, false).push(e));
    assert(split(one, w, false) =~= seq![e, e]);
    let sx = split(one, w, false);
    let sy = split(p.skip(1), w, false);
    lemma_split_nonempty(p.skip(1), w, false);
    assert((sx.drop_last() + seq![sx.last() + sy[0]] + sy.drop_first())[0] == e);
}

proof fn lemma_render_head_windows(pieces: Seq<Seq<char>>)
    requires
        no_backslash(pieces),
        pieces_survive_resplit(pieces),
    ensures
        render(pieces).len() > 0 ==> render(pieces).len() >= 2 && render(pieces)[0] == '/'
            && !is_win_sep(render(pieces)[1], false),
    decreases pieces.len(),
{
    if pieces.len() > 0 {
        let init = pieces.drop_last();
        let last = pieces.last();
        assert(no_backslash(init)) by {
            assert forall|k: int, j: int|
                0 <= k < init.len() && 0 <= j < init[k].len() implies #[trigger] init[k][j]
                != '\\' by {
                assert(init[k] == pieces[k]);
            }
        }
        assert(pieces_survive_resplit(init)) by {
            assert forall|k: int|
                0 <= k < init.len() && is_good_piece(init[k]) implies all_good(
                #[trigger] split(init[k], PathStyle::Windows, false),
            ) by {
                assert(init[k] == pieces[k]);
            }
        }
        lemma_render_head_windows(init);
        if render(init).len() == 0 && guest_piece(last).len() > 0 {
            assert(render(pieces) =~= seq!['/'] + last);
            let k = pieces.len() - 1;
            assert(is_good_piece(pieces[k]));
            assert(all_good(split(pieces[k], PathStyle::Windows, false)));
            lemma_split_nonempty(last, PathStyle::Windows, false);
            if last[0] == '/' {
                lemma_leading_slash_gives_empty_piece(last);
                assert(is_good_piece(split(pieces[k], PathStyle::Windows, false)[0]));
            }
            assert(last[0] == pieces[k][0]);
        }
    }
}

/// On Windows, rendering pieces and cutting the result again gives back the
/// same rendering, as long as every counting piece survives being cut again.
proof fn lemma_render_resplit(pieces: Seq<Seq<char>>)
    requires
        no_backslash(pieces),
        pieces_survive_resplit(pieces),
    ensures
        render(split(render(pieces), PathStyle::Windows, false)) == render(pieces),
    decreases pieces.len(),
{
    let w = PathStyle::Windows;
    if pieces.len() == 0 {
        let e = split(Seq::<char>::empty(), w, false);
        assert(e.drop_last() =~= Seq::<Seq<char>>::empty());
        assert(guest_piece(Seq::<char>::empty()) =~= Seq::<char>::empty());
        assert(render(e) == render(e.drop_last()) + guest_piece(e.last()));
        assert(render(e) =~= Seq::<char>::empty());
    } else {
        let init = pieces.drop_last();
        let last = pieces.last();
        let k = pieces.len() - 1;
        assert(no_backslash(init)) by {
            assert forall|a: int, j: int|
                0 <= a < init.len() && 0 <= j < init[a].len() implies #[trigger] init[a][j]
                != '\\' by {
                assert(init[a] == pieces[a]);
            }
        }
        assert(pieces_survive_resplit(init)) by {
            assert forall|a: int|
                0 <= a < init.len() && is_good_piece(init[a]) implies all_good(
                #[trigger] split(init[a], w, false),
            ) by {
                assert(init[a] == pieces[a]);
            }
        }
        lemma_render_resplit(init);
        let r = render(init);
        if guest_piece(last).len() == 0 {
            assert(render(pieces) =~= r);
        } else {
            assert(is_good_piece(pieces[k]));
            let sl = split(last, w, false);
            assert(all_good(split(pieces[k], w, false)));
            lemma_split_nonempty(last, w, false);
            assert forall|j: int| 0 <= j < last.len() implies #[trigger] last[j] != '\\' by {
                assert(last[j] == pieces[k][j]);
            }
            lemma_slash_join_split(last);
            lemma_render_all_good(sl);
            assert(render(sl) == seq!['/'] + last);
            let r1 = r + seq!['/'];
            assert(render(pieces) =~= r1 + last);
            assert(r1.drop_last() =~= r);
            assert(r1.last() == '/');
            let sr = split(r, w, false);
            assert(split(r1, w, false) == sr.push(Seq::empty()));
            lemma_split_concat(r1, last, w, false);
            assert(sr.push(Seq::<char>::empty()).drop_last() =~= sr);
            assert(Seq::<char>::empty() + sl[0] =~= sl[0]);
            assert(sl =~= seq![sl[0]] + sl.drop_first());
            assert(split(r1 + last, w, false) =~= sr + sl);
            lemma_render_concat(sr, sl);
        }
    }
}

/// A rendering is empty or starts with `/` followed by a character that is
/// not a separator.
pub proof fn lemma_render_head(pieces: Seq<Seq<char>>, style: PathStyle)
    requires
        pieces_free_of_seps(pieces, style, false),
    ensures
        render(pieces).len() > 0 ==> render(pieces).len() >= 2 && render(pieces)[0] == '/'
            && !is_sep(style, false, render(pieces)[1]),
    decreases pieces.len(),
{
    if pieces.len() > 0 {
        let init = pieces.drop_last();
        assert(pieces_free_of_seps(init, style, false)) by {
            assert forall|k: int, j: int|
                0 <= k < init.len() && 0 <= j < init[k].len() implies !is_sep(
                style,
                false,
                #[trigger] init[k][j],
            ) by {
                assert(init[k] == pieces[k]);
            }
        }
        lemma_render_head(init, style);
        let last = pieces.last();
        if render(init).len() == 0 && guest_piece(last).len() > 0 {
            assert(render(pieces) =~= seq!['/'] + last);
            assert(last[0] == pieces[pieces.len() - 1][0]);
        }
    }
}

/// Rendering separator-free pieces and cutting the result again gives back
/// the same rendering.
pub proof fn lemma_render_split_render(pieces: Seq<Seq<char>>, style: PathStyle)
    requires
        pieces_free_of_seps(pieces, style, false),
    ensures
        render(split(render(pieces), style, false)) == render(pieces),
    decreases pieces.len(),
{
    if pieces.len() == 0 {
        assert(render(split(Seq::<char>::empty(), style, false)) =~= Seq::<char>::empty()) by {
            let e = split(Seq::<char>::empty(), style, false);
            assert(e.drop_last() =~= Seq::<Seq<char>>::empty());
            assert(guest_piece(Seq::<char>::empty()) =~= Seq::<char>::empty());
            assert(render(e) == render(e.drop_last()) + guest_piece(e.last()));
        }
    } else {
        let init = pieces.drop_last();
        let last = pieces.last();
        assert(pieces_free_of_seps(init, style, false)) by {
            assert forall|k: int, j: int|
                0 <= k < init.len() && 0 <= j < init[k].len() implies !is_sep(
                style,
                false,
                #[trigger] init[k][j],
            ) by {
                assert(init[k] == pieces[k]);
            }
        }
        lemma_render_split_render(init, style);
        let r = render(init);
        if guest_piece(last).len() == 0 {
            assert(render(pieces) =~= r);
        } else {
            assert forall|j: int| 0 <= j < last.len() implies !is_sep(
                style,
                false,
                #[trigger] last[j],
            ) by {
                assert(last[j] == pieces[pieces.len() - 1][j]);
            }
            lemma_split_sep_piece(r, last, style);
            assert(render(pieces) =~= r + seq!['/'] + last);
            let sr = split(r, style, false);
            assert(sr.push(last).drop_last() =~= sr);
        }
    }
}

/// The guest path of `/` is `/`.
pub proof fn lemma_guest_root(style: PathStyle)
    ensures
        guest_path(seq!['/'], style) == seq!['/'],
{
    let s = seq!['/'];
    assert(prefix_of(s, style) is None);
    assert(s.skip(0) =~= s);
    let e = Seq::<char>::empty();
    assert(s.drop_last() =~= e);
    let pieces = split(s, style, false);
    assert(pieces == split(e, style, false).push(e));
    assert(pieces =~= seq![e, e]);
    assert(pieces.drop_last() =~= seq![e]);
    assert(seq![e].drop_last() =~= Seq::<Seq<char>>::empty());
    assert(guest_piece(e) =~= e);
    assert(render(seq![e]) == render(Seq::<Seq<char>>::empty()) + guest_piece(e));
    assert(render(seq![e]) =~= e);
    assert(render(pieces) == render(seq![e]) + guest_piece(e));
    assert(render(pieces) =~= e);
}

/// Law: a guest path made of separator-free components is its own guest path.
/// In particular every canonical absolute Unix path (`/` or `/c1/.../cn`,
/// components without `/`) is left unchanged, and so is every guest path on
/// Windows whose components hold neither `\` nor `/`.
pub proof fn law_guest_path_fixpoint(pieces: Seq<Seq<char>>, style: PathStyle)
    requires
        pieces_free_of_seps(pieces, style, false),
    ensures
        ({
            let p = if render(pieces).len() == 0 {
                seq!['/']
            } else {
                render(pieces)
            };
            guest_path(p, style) == p
        }),
{
    let r = render(pieces);
    if r.len() == 0 {
        lemma_guest_root(style);
    } else {
        lemma_render_head(pieces, style);
        assert(prefix_of(r, style) is None);
        assert(r.skip(0) =~= r);
        lemma_render_split_render(pieces, style);
    }
}

/// A rendering that is not empty starts with `/`.
pub proof fn lemma_render_starts_with_slash(pieces: Seq<Seq<char>>)
    ensures
        render(pieces).len() > 0 ==> render(pieces)[0] == '/',
    decreases pieces.len(),
{
    if pieces.len() > 0 {
        lemma_render_starts_with_slash(pieces.drop_last());
    }
}

/// Law: every guest path is absolute: it is never empty and starts with `/`.
pub proof fn law_guest_path_absolute(s: Seq<char>, style: PathStyle)
    ensures
        guest_path(s, style).len() > 0,
        guest_path(s, style)[0] == '/',
{
    lemma_render_starts_with_slash(body_pieces(s, style));
}

/// A rendering of pieces without `c` holds no `c`, unless `c` is `/`.
pub proof fn lemma_render_avoids(pieces: Seq<Seq<char>>, c: char)
    requires
        c != '/',
        forall|k: int, j: int|
            0 <= k < pieces.len() && 0 <= j < pieces[k].len() ==> #[trigger] pieces[k][j] != c,
    ensures
        forall|i: int| 0 <= i < render(pieces).len() ==> #[trigger] render(pieces)[i] != c,
    decreases pieces.len(),
{
    if pieces.len() > 0 {
        let init = pieces.drop_last();
        assert forall|k: int, j: int|
            0 <= k < init.len() && 0 <= j < init[k].len() implies #[trigger] init[k][j] != c by {
            assert(init[k] == pieces[k]);
        }
        lemma_render_avoids(init, c);
        let last = pieces.last();
        let r = render(pieces);
        assert forall|i: int| 0 <= i < r.len() implies #[trigger] r[i] != c by {
            if i >= render(init).len() && guest_piece(last).len() > 0 {
                let k = i - render(init).len();
                if k > 0 {
                    assert(r[i] == last[k - 1]);
                    assert(last[k - 1] == pieces[pieces.len() - 1][k - 1]);
                }
            }
        }
    }
}

/// Law: on Windows the guest path is in POSIX form: it holds no `\`.
pub proof fn law_windows_guest_path_has_no_backslash(s: Seq<char>)
    ensures
        forall|i: int|
            0 <= i < guest_path(s, PathStyle::Windows).len() ==> #[trigger] guest_path(
                s,
                PathStyle::Windows,
            )[i] != '\\',
{
    let style = PathStyle::Windows;
    let pieces = body_pieces(s, style);
    lemma_split_pieces_free(s.skip(prefix_len(s, style)), style, is_verbatim_path(s, style));
    assert forall|k: int, j: int|
        0 <= k < pieces.len() && 0 <= j < pieces[k].len() implies #[trigger] pieces[k][j]
        != '\\' by {
        assert(!is_sep(style, is_verbatim_path(s, style), pieces[k][j]));
    }
    lemma_render_avoids(pieces, '\\');
}

/// Law: rewriting a guest path again changes nothing. On Windows it is
/// stated for paths each of whose components, cut again at `/`, consists of
/// components that are neither empty nor `.`; only a component after a
/// verbatim prefix `\\?\` can hold a `/`, and `\\?\C:\a/./b` is a path where
/// a second rewriting does change the result.
pub proof fn law_guest_path_idempotent(s: Seq<char>, style: PathStyle)
    requires
        style == PathStyle::Windows ==> pieces_survive_resplit(body_pieces(s, style)),
    ensures
        guest_path(guest_path(s, style), style) == guest_path(s, style),
{
    let v = is_verbatim_path(s, style);
    let pieces = body_pieces(s, style);
    lemma_split_pieces_free(s.skip(prefix_len(s, style)), style, v);
    match style {
        PathStyle::Unix => {
            assert(pieces_free_of_seps(pieces, style, false)) by {
                assert forall|k: int, j: int|
                    0 <= k < pieces.len() && 0 <= j < pieces[k].len() implies !is_sep(
                    style,
                    false,
                    #[trigger] pieces[k][j],
                ) by {
                    assert(!is_sep(style, v, pieces[k][j]));
                }
            }
            law_guest_path_fixpoint(pieces, style);
        },
        PathStyle::Windows => {
            assert(no_backslash(pieces)) by {
                assert forall|k: int, j: int|
                    0 <= k < pieces.len() && 0 <= j < pieces[k].len() implies #[trigger] pieces[k][j]
                    != '\\' by {
                    assert(!is_sep(style, v, pieces[k][j]));
                }
            }
            let r = render(pieces);
            if r.len() == 0 {
                lemma_guest_root(style);
            } else {
                lemma_render_head_windows(pieces);
                assert(prefix_of(r, style) is None);
                assert(r.skip(0) =~= r);
                lemma_render_resplit(pieces);
            }
        },
    }
}

/// The components of a list of pieces that a guest path keeps: every piece
/// other than an empty one and `.`, in order (`..` included).
pub open spec fn kept(xs: Seq<Seq<char>>) -> Seq<Seq<char>>
    decreases xs.len(),
{
    if xs.len() == 0 {
        Seq::empty()
    } else if is_good_piece(xs.last()) {
        kept(xs.drop_last()).push(xs.last())
    } else {
        kept(xs.drop_last())
    }
}

/// The components of `s` after its prefix that its guest path keeps (the
/// normal components and `..`; roots and `.` are left out).
pub open spec fn guest_components(s: Seq<char>, style: PathStyle) -> Seq<Seq<char>> {
    kept(body_pieces(s, style))
}

pub proof fn lemma_render_kept(xs: Seq<Seq<char>>)
    ensures
        render(kept(xs)) == render(xs),
    decreases xs.len(),
{
    if xs.len() > 0 {
        lemma_render_kept(xs.drop_last());
        let k = kept(xs.drop_last());
        if is_good_piece(xs.last()) {
            assert(k.push(xs.last()).drop_last() =~= k);
        } else {
            assert(guest_piece(xs.last()) =~= Seq::<char>::empty());
            assert(render(xs) =~= render(xs.drop_last()));
        }
    }
}

/// A rendering never has exactly one character.
pub proof fn lemma_render_len_not_one(xs: Seq<Seq<char>>)
    ensures
        render(xs).len() != 1,
    decreases xs.len(),
{
    if xs.len() > 0 {
        lemma_render_len_not_one(xs.drop_last());
    }
}

/// Text without separators is a single piece.
pub proof fn lemma_split_no_sep(t: Seq<char>, style: PathStyle, verbatim: bool)
    requires
        forall|j: int| 0 <= j < t.len() ==> !is_sep(style, verbatim, #[trigger] t[j]),
    ensures
        split(t, style, verbatim) == seq![t],
{
    lemma_split_extend(Seq::empty(), t, style, verbatim);
    assert(Seq::<char>::empty() + t =~= t);
    let e = split(Seq::<char>::empty(), style, verbatim);
    assert(e =~= seq![Seq::<char>::empty()]);
    assert(Seq::<char>::empty() + t =~= t);
    assert(e.update(0, e.last() + t) =~= seq![t]);
}

/// Law: the guest path of a host path depends only on its components after
/// the prefix: two paths with the same normal and `..` components, whatever
/// their prefixes, roots and `.` components (such as `\\?\C:\x`, `C:\x` and
/// `D:\.\x` on Windows), have the same guest path; on Windows it holds no `\`.
pub proof fn law_guest_path_depends_on_components(p: Seq<char>, q: Seq<char>, style: PathStyle)
    requires
        guest_components(p, style) == guest_components(q, style),
    ensures
        guest_path(p, style) == guest_path(q, style),
        style == PathStyle::Windows ==> forall|i: int|
            0 <= i < guest_path(p, style).len() ==> #[trigger] guest_path(p, style)[i] != '\\',
{
    lemma_render_kept(body_pieces(p, style));
    lemma_render_kept(body_pieces(q, style));
    if style == PathStyle::Windows {
        law_windows_guest_path_has_no_backslash(p);
    }
}

// ---------------------------------------------------------------------------
// Executable grammar
// ---------------------------------------------------------------------------

pub(crate) fn is_sep_exec(style: PathStyle, verbatim: bool, c: char) -> (b: bool)
    ensures
        b == is_sep(style, verbatim, c),
{
    match style {
        PathStyle::Unix => c == '/',
        PathStyle::Windows => c == '\\' || (!verbatim && c == '/'),
    }
}

fn is_ascii_letter_exec(c: char) -> (b: bool)
    ensures
        b == is_ascii_letter(c),
{
    ('a' <= c && c <= 'z') || ('A' <= c && c <= 'Z')
}

fn upper_exec(c: char) -> (u: char)
    ensures
        u == upper(c),
{
    if 'a' <= c && c <= 'z' {
        ((c as u8 - 32) as u8) as char
    } else {
        c
    }
}

fn sep_index_exec(s: &Vec<char>, from: usize, verbatim: bool) -> (r: usize)
    requires
        from <= s.len(),
    ensures
        r == sep_index(s@, from as int, verbatim),
        from <= r <= s.len(),
{
    let mut i = from;
    while i < s.len()
        invariant
            from <= i <= s.len(),
            sep_index(s@, i as int, verbatim) == sep_index(s@, from as int, verbatim),
        decreases s.len() - i,
    {
        if s[i] == '\\' || (!verbatim && s[i] == '/') {
            return i;
        }
        i = i + 1;
    }
    i
}

/// The prefix of the Windows path `s` and its length.
fn windows_prefix_exec(s: &Vec<char>) -> (r: Option<(Prefix, usize)>)
    ensures
        match r {
            Some((k, n)) => windows_prefix(s@) == Some((k, n as int)) && n <= s.len(),
            None => windows_prefix(s@) is None,
        },
{
    let n = s.len();
    if n >= 4 && s[0] == '\\' && s[1] == '\\' && s[2] == '?' && s[3] == '\\' {
        if n >= 8 && s[4] == 'U' && s[5] == 'N' && s[6] == 'C' && s[7] == '\\' {
            let server_end = sep_index_exec(s, 8, true);
            let share_end = if server_end < n {
                sep_index_exec(s, server_end + 1, true)
            } else {
                server_end
            };
            let len = if share_end > server_end && share_end - server_end > 1 {
                share_end
            } else {
                server_end
            };
            Some((Prefix::VerbatimUnc, len))
        } else if n >= 6 && is_ascii_letter_exec(s[4]) && s[5] == ':' && (n == 6 || s[6] == '\\') {
            Some((Prefix::VerbatimDisk(upper_exec(s[4])), 6))
        } else {
            Some((Prefix::Verbatim, sep_index_exec(s, 4, true)))
        }
    } else if n >= 2 && (s[0] == '\\' || s[0] == '/') && (s[1] == '\\' || s[1] == '/') {
        if n >= 4 && s[2] == '.' && (s[3] == '\\' || s[3] == '/') {
            Some((Prefix::DeviceNs, sep_index_exec(s, 4, false)))
        } else {
            let server_end = sep_index_exec(s, 2, false);
            let share_end = if server_end < n {
                sep_index_exec(s, server_end + 1, false)
            } else {
                server_end
            };
            if server_end > 2 && share_end > server_end && share_end - server_end > 1 {
                Some((Prefix::Unc, share_end))
            } else {
                None
            }
        }
    } else if n >= 2 && is_ascii_letter_exec(s[0]) && s[1] == ':' {
        Some((Prefix::Disk(upper_exec(s[0])), 2))
    } else {
        None
    }
}

/// The prefix of `s` under `style`, with its length.
pub(crate) fn prefix_exec(s: &Vec<char>, style: PathStyle) -> (r: Option<(Prefix, usize)>)
    ensures
        match r {
            Some((k, n)) => prefix_of(s@, style) == Some((k, n as int)) && n <= s.len(),
            None => prefix_of(s@, style) is None,
        },
{
    match style {
        PathStyle::Unix => None,
        PathStyle::Windows => windows_prefix_exec(s),
    }
}

/// Appends the guest contribution of one piece to `out`.
fn push_piece(out: &mut String, piece: &Vec<char>)
    ensures
        final(out)@ == old(out)@ + guest_piece(piece@),
{
    if piece.len() == 0 {
        assert(guest_piece(piece@) =~= Seq::empty());
        return;
    }
    if piece.len() == 1 && piece[0] == '.' {
        assert(piece@ =~= seq!['.']);
        assert(guest_piece(piece@) =~= Seq::empty());
        return;
    }
    assert(piece@ != seq!['.']) by {
        if piece@ == seq!['.'] {
            assert(piece@.len() == 1 && piece@[0] == '.');
        }
    }
    let ghost start = out@;
    out.push('/');
    let mut j: usize = 0;
    while j < piece.len()
        invariant
            j <= piece.len(),
            out@ == start + seq!['/'] + piece@.take(j as int),
        decreases piece.len() - j,
    {
        out.push(piece[j]);
        assert(piece@.take(j + 1) =~= piece@.take(j as int).push(piece@[j as int]));
        j = j + 1;
    }
    assert(piece@.take(piece.len() as int) =~= piece@);
    assert(start + seq!['/'] + piece@ =~= start + guest_piece(piece@));
}

/// The guest path of host path `p`: the path under the compiler's single
/// root that names the same file, in POSIX form.
///
/// For example `/a/b/c.capnp` stays `/a/b/c.capnp` on Unix, and on Windows both
/// `\\?\C:\a\b\c.capnp` and `C:\a\b\c.capnp` become `/a/b/c.capnp`.
pub fn to_guest(p: &str, style: PathStyle) -> (g: String)
    ensures
        g@ == guest_path(p@, style),
{
    let s = chars_of(p);
    let (start, verbatim) = match prefix_exec(&s, style) {
        Some((k, n)) => (n, k.is_verbatim()),
        None => (0, false),
    };
    assert(start as int == prefix_len(s@, style));
    assert(verbatim == is_verbatim_path(s@, style));
    let mut out = String::new();
    let mut cur: Vec<char> = Vec::new();
    let mut i = start;
    proof {
        assert(s@.subrange(start as int, start as int) =~= Seq::<char>::empty());
        assert(split(Seq::<char>::empty(), style, verbatim).drop_last() =~= Seq::<
            Seq<char>,
        >::empty());
    }
    while i < s.len()
        invariant
            start <= i <= s.len(),
            out@ == render(split(s@.subrange(start as int, i as int), style, verbatim).drop_last()),
            cur@ == split(s@.subrange(start as int, i as int), style, verbatim).last(),
        decreases s.len() - i,
    {
        let ghost t = s@.subrange(start as int, i as int);
        let ghost t1 = s@.subrange(start as int, i + 1);
        proof {
            assert(t1.drop_last() =~= t);
            assert(t1.last() == s@[i as int]);
            lemma_split_nonempty(t, style, verbatim);
        }
        let c = s[i];
        if is_sep_exec(style, verbatim, c) {
            push_piece(&mut out, &cur);
            cur = Vec::new();
            proof {
                let segs = split(t, style, verbatim);
                assert(split(t1, style, verbatim) == segs.push(Seq::<char>::empty()));
                assert(segs.push(Seq::<char>::empty()).drop_last() =~= segs);
                assert(segs =~= segs.drop_last().push(segs.last()));
            }
        } else {
            cur.push(c);
            proof {
                let segs = split(t, style, verbatim);
                let segs1 = split(t1, style, verbatim);
                assert(segs1 == segs.update(segs.len() - 1, segs.last().push(c)));
                assert(segs1.drop_last() =~= segs.drop_last());
            }
        }
        i = i + 1;
    }
    push_piece(&mut out, &cur);
    proof {
        let t = s@.subrange(start as int, s.len() as int);
        assert(t =~= s@.skip(prefix_len(s@, style)));
        lemma_split_nonempty(t, style, verbatim);
        assert(out@ == render(split(t, style, verbatim)));
    }
    if out.as_str().is_empty() {
        out.push('/');
        assert(out@ =~= seq!['/']);
    }
    out
}

} // verus!
