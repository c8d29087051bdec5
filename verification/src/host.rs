//! Host-side path decisions: the directory that becomes the compiler's root,
//! and how a path is resolved against the working directory.

use vstd::prelude::*;
use crate::error::Error;
use crate::path::{
    body_pieces, guest_path, guest_piece, is_ascii_letter, is_sep, is_verbatim_path, is_win_sep,
    lemma_render_concat, lemma_render_len_not_one, lemma_split_concat, lemma_split_no_sep,
    lemma_split_nonempty, lemma_split_pieces_free, no_backslash, prefix_exec, prefix_len,
    prefix_of, render, sep_index, split, starts_verbatim, upper, windows_prefix, PathStyle,
    Prefix,
};
use crate::text::chars_of;

verus! {

// ---------------------------------------------------------------------------
// The preopened root
// ---------------------------------------------------------------------------

/// The drive letter of a Windows path that starts with `C:` or `\\?\C:`.
pub open spec fn drive_of(s: Seq<char>) -> Option<char> {
    match windows_prefix(s) {
        Some((Prefix::Disk(d), _)) => Some(d),
        Some((Prefix::VerbatimDisk(d), _)) => Some(d),
        _ => None,
    }
}

/// The drive letter of a Windows path (see [`drive_of`]).
pub(crate) fn drive_exec(s: &str) -> (d: Option<char>)
    ensures
        d == drive_of(s@),
{
    let c = chars_of(s);
    match prefix_exec(&c, PathStyle::Windows) {
        Some((Prefix::Disk(d), _)) => Some(d),
        Some((Prefix::VerbatimDisk(d), _)) => Some(d),
        _ => None,
    }
}

/// Whether the directory `dir` is reachable through the root that is
/// preopened for the canonical working directory `canonical_cwd` (see
/// [`preopen_root`]): on Unix every directory is; on Windows a directory
/// without a prefix (relative, or rooted on the current drive) is, and so is
/// one on the working directory's drive.
pub open spec fn within_preopened_root(dir: Seq<char>, canonical_cwd: Seq<char>, style: PathStyle) -> bool {
    match style {
        PathStyle::Unix => true,
        PathStyle::Windows => windows_prefix(dir) is None || (drive_of(dir) is Some && drive_of(dir)
            == drive_of(canonical_cwd)),
    }
}

/// Whether `dir` is reachable through the preopened root (see
/// [`within_preopened_root`]).
pub fn is_within_preopened_root(dir: &str, canonical_cwd: &str, style: PathStyle) -> (b: bool)
    ensures
        b == within_preopened_root(dir@, canonical_cwd@, style),
{
    match style {
        PathStyle::Unix => true,
        PathStyle::Windows => {
            let c = chars_of(dir);
            if prefix_exec(&c, style).is_none() {
                true
            } else {
                let d = drive_exec(dir);
                match d {
                    Some(x) => match drive_exec(canonical_cwd) {
                        Some(y) => x == y,
                        None => false,
                    },
                    None => false,
                }
            }
        },
    }
}

/// The host directory that is opened as the compiler's `/`.
///
/// On Unix it is `/`. On Windows it is the drive root (`C:\`) of the
/// canonical working directory `canonical_cwd`, so that the project files and
/// the staged standard schemas (on the same drive) are reachable through one
/// root; a working directory on a UNC share is refused. `cwd` is the working
/// directory as the user sees it, for the error message.
pub fn preopen_root(cwd: &str, canonical_cwd: &str, style: PathStyle) -> (r: Result<String, Error>)
    ensures
        style == PathStyle::Unix ==> (r matches Ok(root) && root@ == seq!['/']),
        style == PathStyle::Windows ==> match drive_of(canonical_cwd@) {
            Some(d) => r matches Ok(root) && root@ == seq![d, ':', '\\'],
            None => r matches Err(e) && e@ == "could not determine the drive root of `"@ + cwd@
                + "`; UNC paths are not supported"@,
        },
{
    match style {
        PathStyle::Unix => {
            let mut root = String::new();
            root.push('/');
            assert(root@ =~= seq!['/']);
            Ok(root)
        },
        PathStyle::Windows => {
            match drive_exec(canonical_cwd) {
                Some(d) => {
                    let mut root = String::new();
                    root.push(d);
                    root.push(':');
                    root.push('\\');
                    assert(root@ =~= seq![d, ':', '\\']);
                    Ok(root)
                },
                None => {
                    let mut message = "could not determine the drive root of `".to_owned();
                    message.append(cwd);
                    message.append("`; UNC paths are not supported");
                    Err(Error::new(message))
                },
            }
        },
    }
}

// ---------------------------------------------------------------------------
// Resolving a path against a directory
// ---------------------------------------------------------------------------

/// Whether `s` starts at a root: on Unix a leading `/`; on Windows a
/// separator right after the prefix, or a prefix other than a bare drive
/// (those name a root by themselves).
pub open spec fn has_root(s: Seq<char>, style: PathStyle) -> bool {
    match style {
        PathStyle::Unix => s.len() > 0 && s[0] == '/',
        PathStyle::Windows => {
            let n = prefix_len(s, style);
            ||| (n < s.len() && is_win_sep(s[n], false))
            ||| (match windows_prefix(s) {
                Some((k, _)) => !(k is Disk),
                None => false,
            })
        },
    }
}

/// Whether `s` names a file independently of any working directory: on Unix
/// when it has a root, on Windows when it has both a prefix and a root.
pub open spec fn is_absolute(s: Seq<char>, style: PathStyle) -> bool {
    match style {
        PathStyle::Unix => has_root(s, style),
        PathStyle::Windows => windows_prefix(s) is Some && has_root(s, style),
    }
}

/// A component other than `.` and `..`.
pub open spec fn is_normal(x: Seq<char>) -> bool {
    x != seq!['.'] && x != seq!['.', '.']
}

/// The components of a verbatim path's body: every non-empty piece, `.` and
/// `..` included.
pub open spec fn verbatim_components(pieces: Seq<Seq<char>>) -> Seq<Seq<char>>
    decreases pieces.len(),
{
    if pieces.len() == 0 {
        Seq::empty()
    } else {
        let prev = verbatim_components(pieces.drop_last());
        if pieces.last().len() == 0 {
            prev
        } else {
            prev.push(pieces.last())
        }
    }
}

/// One step of appending a relative component below a verbatim path: empty
/// pieces and `.` are skipped, `..` removes a preceding normal component (and
/// is otherwise dropped), anything else is added.
pub open spec fn append_component(stack: Seq<Seq<char>>, x: Seq<char>) -> Seq<Seq<char>> {
    if x.len() == 0 || x == seq!['.'] {
        stack
    } else if x == seq!['.', '.'] {
        if stack.len() > 0 && is_normal(stack.last()) {
            stack.drop_last()
        } else {
            stack
        }
    } else {
        stack.push(x)
    }
}

pub open spec fn append_components(stack: Seq<Seq<char>>, xs: Seq<Seq<char>>) -> Seq<Seq<char>>
    decreases xs.len(),
{
    if xs.len() == 0 {
        stack
    } else {
        append_component(append_components(stack, xs.drop_last()), xs.last())
    }
}

/// The components joined by `\`.
pub open spec fn join_backslash(xs: Seq<Seq<char>>) -> Seq<char>
    decreases xs.len(),
{
    if xs.len() == 0 {
        Seq::empty()
    } else if xs.len() == 1 {
        xs[0]
    } else {
        join_backslash(xs.drop_last()) + seq!['\\'] + xs.last()
    }
}

/// Whether the verbatim path `base` has a separator right after its prefix.
pub open spec fn physical_root(base: Seq<char>) -> bool {
    let n = prefix_len(base, PathStyle::Windows);
    n < base.len() && is_win_sep(base[n], false)
}

/// `p` (relative, without prefix, not empty) appended below the verbatim path
/// `base`: the result is rebuilt from components, with `.` and `..` of `p`
/// resolved.
pub open spec fn verbatim_join(base: Seq<char>, p: Seq<char>) -> Seq<char> {
    let n = prefix_len(base, PathStyle::Windows);
    let phys = physical_root(base);
    let rest = base.skip(if phys { n + 1 } else { n });
    let p_root = p.len() > 0 && is_win_sep(p[0], false);
    let start = if p_root {
        Seq::empty()
    } else {
        verbatim_components(split(rest, PathStyle::Windows, true))
    };
    let stack = append_components(start, split(p, PathStyle::Windows, false));
    base.take(n) + if stack.len() == 0 {
        if phys || p_root {
            seq!['\\']
        } else {
            Seq::empty()
        }
    } else {
        seq!['\\'] + join_backslash(stack)
    }
}

/// `p` appended to `base`: an absolute `p` (on Windows also one with a
/// prefix) replaces `base`; otherwise `p` follows `base`, with a separator in
/// between unless `base` is empty, already ends in one, or (on Windows) is a
/// bare drive `C:`. On Windows a `p` with a root keeps only the prefix of
/// `base`, and below a verbatim `base` the result is rebuilt component by
/// component.
pub open spec fn join(base: Seq<char>, p: Seq<char>, style: PathStyle) -> Seq<char> {
    match style {
        PathStyle::Unix => if has_root(p, style) {
            p
        } else if base.len() > 0 && base.last() != '/' {
            base + seq!['/'] + p
        } else {
            base + p
        },
        PathStyle::Windows => {
            let bare_drive = match windows_prefix(base) {
                Some((Prefix::Disk(_), n)) => n == base.len(),
                _ => false,
            };
            let need_sep = base.len() > 0 && !is_win_sep(base.last(), false) && !bare_drive;
            if is_absolute(p, style) || windows_prefix(p) is Some {
                p
            } else if is_verbatim_path(base, style) && p.len() > 0 {
                verbatim_join(base, p)
            } else if has_root(p, style) {
                base.take(prefix_len(base, style)) + p
            } else if need_sep {
                base + seq!['\\'] + p
            } else {
                base + p
            }
        },
    }
}

/// `p` resolved against the working directory `cwd`: `p` itself when it is
/// absolute, else `cwd` joined with `p`.
pub open spec fn absolutize(cwd: Seq<char>, p: Seq<char>, style: PathStyle) -> Seq<char> {
    if is_absolute(p, style) {
        p
    } else {
        join(cwd, p, style)
    }
}

// ---------------------------------------------------------------------------
// Executable resolution
// ---------------------------------------------------------------------------

/// The views of a list of character lists.
pub open spec fn char_lists(v: Seq<Vec<char>>) -> Seq<Seq<char>> {
    v.map_values(|x: Vec<char>| x@)
}

fn extend_chars(out: &mut Vec<char>, x: &Vec<char>)
    ensures
        final(out)@ == old(out)@ + x@,
{
    let ghost start = out@;
    let mut j: usize = 0;
    while j < x.len()
        invariant
            j <= x.len(),
            out@ == start + x@.take(j as int),
        decreases x.len() - j,
    {
        out.push(x[j]);
        assert(x@.take(j + 1) =~= x@.take(j as int).push(x@[j as int]));
        j = j + 1;
    }
    assert(x@.take(x.len() as int) =~= x@);
}

fn copy_chars(x: &Vec<char>) -> (r: Vec<char>)
    ensures
        r@ == x@,
{
    let mut r: Vec<char> = Vec::new();
    extend_chars(&mut r, x);
    assert(Seq::<char>::empty() + x@ =~= x@);
    r
}

fn string_of(v: &Vec<char>) -> (s: String)
    ensures
        s@ == v@,
{
    let mut s = String::new();
    let mut j: usize = 0;
    while j < v.len()
        invariant
            j <= v.len(),
            s@ == v@.take(j as int),
        decreases v.len() - j,
    {
        s.push(v[j]);
        assert(v@.take(j + 1) =~= v@.take(j as int).push(v@[j as int]));
        j = j + 1;
    }
    assert(v@.take(v.len() as int) =~= v@);
    s
}

/// The pieces of `s` from index `start` on.
fn split_exec(s: &Vec<char>, start: usize, style: PathStyle, verbatim: bool) -> (r: Vec<Vec<char>>)
    requires
        start <= s.len(),
    ensures
        char_lists(r@) == split(s@.skip(start as int), style, verbatim),
{
    let mut done: Vec<Vec<char>> = Vec::new();
    let mut cur: Vec<char> = Vec::new();
    let mut i = start;
    proof {
        assert(s@.subrange(start as int, start as int) =~= Seq::<char>::empty());
        assert(char_lists(done@) =~= split(Seq::<char>::empty(), style, verbatim).drop_last());
    }
    while i < s.len()
        invariant
            start <= i <= s.len(),
            char_lists(done@) == split(s@.subrange(start as int, i as int), style, verbatim).drop_last(),
            cur@ == split(s@.subrange(start as int, i as int), style, verbatim).last(),
        decreases s.len() - i,
    {
        let ghost t = s@.subrange(start as int, i as int);
        let ghost t1 = s@.subrange(start as int, i + 1);
        proof {
            assert(t1.drop_last() =~= t);
            assert(t1.last() == s@[i as int]);
            lemma_split_nonempty(t, style, verbatim);
        }
        let c = s[i];
        if crate::path::is_sep_exec(style, verbatim, c) {
            let ghost before = done@;
            let ghost piece = cur@;
            let mut finished: Vec<char> = Vec::new();
            std::mem::swap(&mut finished, &mut cur);
            done.push(finished);
            proof {
                let segs = split(t, style, verbatim);
                assert(split(t1, style, verbatim) == segs.push(Seq::<char>::empty()));
                assert(segs.push(Seq::<char>::empty()).drop_last() =~= segs);
                assert(char_lists(done@) =~= char_lists(before).push(piece));
                assert(segs =~= segs.drop_last().push(segs.last()));
            }
        } else {
            cur.push(c);
            proof {
                let segs = split(t, style, verbatim);
                let segs1 = split(t1, style, verbatim);
                assert(segs1 == segs.update(segs.len() - 1, segs.last().push(c)));
                assert(segs1.drop_last() =~= segs.drop_last());
            }
        }
        i = i + 1;
    }
    let ghost before = done@;
    let ghost piece = cur@;
    done.push(cur);
    proof {
        let t = s@.subrange(start as int, s.len() as int);
        assert(t =~= s@.skip(start as int));
        lemma_split_nonempty(t, style, verbatim);
        let segs = split(t, style, verbatim);
        assert(char_lists(done@) =~= char_lists(before).push(piece));
        assert(segs =~= segs.drop_last().push(segs.last()));
    }
    done
}

fn is_text(x: &Vec<char>, dots: usize) -> (b: bool)
    requires
        dots == 1 || dots == 2,
    ensures
        dots == 1 ==> (b == (x@ == seq!['.'])),
        dots == 2 ==> (b == (x@ == seq!['.', '.'])),
{
    if x.len() != dots {
        proof {
            if dots == 1 && x@ == seq!['.'] {
                assert(x@.len() == 1);
            }
            if dots == 2 && x@ == seq!['.', '.'] {
                assert(x@.len() == 2);
            }
        }
        return false;
    }
    if dots == 1 {
        let b = x[0] == '.';
        proof {
            if b {
                assert(x@ =~= seq!['.']);
            }
        }
        b
    } else {
        let b = x[0] == '.' && x[1] == '.';
        proof {
            if b {
                assert(x@ =~= seq!['.', '.']);
            }
        }
        b
    }
}

/// Whether `s` has a root (see [`has_root`]).
fn has_root_exec(s: &Vec<char>, style: PathStyle) -> (b: bool)
    ensures
        b == has_root(s@, style),
{
    match style {
        PathStyle::Unix => s.len() > 0 && s[0] == '/',
        PathStyle::Windows => {
            match prefix_exec(s, style) {
                Some((k, n)) => {
                    let physical = n < s.len() && (s[n] == '\\' || s[n] == '/');
                    let implicit = match k {
                        Prefix::Disk(_) => false,
                        _ => true,
                    };
                    physical || implicit
                },
                None => s.len() > 0 && (s[0] == '\\' || s[0] == '/'),
            }
        },
    }
}

fn is_absolute_exec(s: &Vec<char>, style: PathStyle) -> (b: bool)
    ensures
        b == is_absolute(s@, style),
{
    match style {
        PathStyle::Unix => has_root_exec(s, style),
        PathStyle::Windows => prefix_exec(s, style).is_some() && has_root_exec(s, style),
    }
}

proof fn lemma_join_backslash_push(xs: Seq<Seq<char>>, x: Seq<char>)
    requires
        xs.len() > 0,
    ensures
        join_backslash(xs.push(x)) == join_backslash(xs) + seq!['\\'] + x,
{
    assert(xs.push(x).drop_last() =~= xs);
}

/// Appends the rebuilt components of a verbatim join to `out`.
fn verbatim_join_exec(base: &Vec<char>, n: usize, p: &Vec<char>) -> (r: Vec<char>)
    requires
        n as int == prefix_len(base@, PathStyle::Windows),
        n <= base.len(),
        p.len() > 0,
    ensures
        r@ == verbatim_join(base@, p@),
{
    let phys = n < base.len() && (base[n] == '\\' || base[n] == '/');
    let p_root = p[0] == '\\' || p[0] == '/';
    let mut stack: Vec<Vec<char>> = Vec::new();
    if !p_root {
        let rest_start = if phys { n + 1 } else { n };
        let pieces = split_exec(base, rest_start, PathStyle::Windows, true);
        let mut i: usize = 0;
        let ghost ps = char_lists(pieces@);
        assert(ps.take(0) =~= Seq::<Seq<char>>::empty());
        assert(char_lists(stack@) =~= Seq::<Seq<char>>::empty());
        while i < pieces.len()
            invariant
                i <= pieces.len(),
                ps == char_lists(pieces@),
                char_lists(stack@) == verbatim_components(ps.take(i as int)),
            decreases pieces.len() - i,
        {
            assert(ps.take(i + 1).drop_last() =~= ps.take(i as int));
            assert(ps.take(i + 1).last() == pieces@[i as int]@);
            if pieces[i].len() > 0 {
                let ghost before = stack@;
                stack.push(copy_chars(&pieces[i]));
                assert(char_lists(stack@) =~= char_lists(before).push(pieces@[i as int]@));
            }
            i = i + 1;
        }
        assert(ps.take(pieces.len() as int) =~= ps);
    } else {
        assert(char_lists(stack@) =~= Seq::<Seq<char>>::empty());
    }
    let ghost start = char_lists(stack@);
    let rel = split_exec(p, 0, PathStyle::Windows, false);
    let ghost rs = char_lists(rel@);
    assert(p@.skip(0) =~= p@);
    assert(rs.take(0) =~= Seq::<Seq<char>>::empty());
    let mut i: usize = 0;
    while i < rel.len()
        invariant
            i <= rel.len(),
            rs == char_lists(rel@),
            char_lists(stack@) == append_components(start, rs.take(i as int)),
        decreases rel.len() - i,
    {
        assert(rs.take(i + 1).drop_last() =~= rs.take(i as int));
        assert(rs.take(i + 1).last() == rel@[i as int]@);
        let x = &rel[i];
        let ghost before = stack@;
        if x.len() == 0 || is_text(x, 1) {
        } else if is_text(x, 2) {
            if stack.len() > 0 {
                let last = stack.len() - 1;
                if !is_text(&stack[last], 1) && !is_text(&stack[last], 2) {
                    stack.pop();
                    assert(char_lists(stack@) =~= char_lists(before).drop_last());
                }
            }
        } else {
            stack.push(copy_chars(x));
            assert(char_lists(stack@) =~= char_lists(before).push(rel@[i as int]@));
        }
        i = i + 1;
    }
    assert(rs.take(rel.len() as int) =~= rs);
    let ghost st = char_lists(stack@);
    let mut out: Vec<char> = Vec::new();
    let mut j: usize = 0;
    while j < n
        invariant
            j <= n <= base.len(),
            out@ == base@.take(j as int),
        decreases n - j,
    {
        out.push(base[j]);
        assert(base@.take(j + 1) =~= base@.take(j as int).push(base@[j as int]));
        j = j + 1;
    }
    if stack.len() == 0 {
        if phys || p_root {
            out.push('\\');
        }
        assert(out@ =~= verbatim_join(base@, p@));
    } else {
        let ghost head = out@;
        out.push('\\');
        extend_chars(&mut out, &stack[0]);
        assert(st.take(1).len() == 1);
        assert(join_backslash(st.take(1)) == st[0]);
        let mut k: usize = 1;
        while k < stack.len()
            invariant
                1 <= k <= stack.len(),
                st == char_lists(stack@),
                out@ == head + seq!['\\'] + join_backslash(st.take(k as int)),
            decreases stack.len() - k,
        {
            out.push('\\');
            extend_chars(&mut out, &stack[k]);
            proof {
                assert(st.take(k + 1) =~= st.take(k as int).push(st[k as int]));
                lemma_join_backslash_push(st.take(k as int), st[k as int]);
            }
            k = k + 1;
        }
        assert(st.take(stack.len() as int) =~= st);
        assert(out@ =~= verbatim_join(base@, p@));
    }
    out
}

/// `p` appended to `base`, in the host's path grammar (see [`join`]).
pub fn join_paths(base: &str, p: &str, style: PathStyle) -> (r: String)
    ensures
        r@ == join(base@, p@, style),
{
    let b = chars_of(base);
    let q = chars_of(p);
    let joined = match style {
        PathStyle::Unix => {
            if has_root_exec(&q, style) {
                q
            } else {
                let mut out = copy_chars(&b);
                if b.len() > 0 && b[b.len() - 1] != '/' {
                    out.push('/');
                }
                extend_chars(&mut out, &q);
                out
            }
        },
        PathStyle::Windows => {
            let prefix = prefix_exec(&b, style);
            let n: usize = match prefix {
                Some((_, n)) => n,
                None => 0,
            };
            let bare_drive = match prefix {
                Some((Prefix::Disk(_), n)) => n == b.len(),
                _ => false,
            };
            let verbatim = match prefix {
                Some((k, _)) => k.is_verbatim(),
                None => false,
            };
            let need_sep = b.len() > 0 && !(b[b.len() - 1] == '\\' || b[b.len() - 1] == '/')
                && !bare_drive;
            if is_absolute_exec(&q, style) || prefix_exec(&q, style).is_some() {
                q
            } else if verbatim && q.len() > 0 {
                verbatim_join_exec(&b, n, &q)
            } else if has_root_exec(&q, style) {
                let mut out: Vec<char> = Vec::new();
                let mut j: usize = 0;
                while j < n
                    invariant
                        j <= n <= b.len(),
                        out@ == b@.take(j as int),
                    decreases n - j,
                {
                    out.push(b[j]);
                    assert(b@.take(j + 1) =~= b@.take(j as int).push(b@[j as int]));
                    j = j + 1;
                }
                extend_chars(&mut out, &q);
                out
            } else {
                let mut out = copy_chars(&b);
                if need_sep {
                    out.push('\\');
                }
                extend_chars(&mut out, &q);
                out
            }
        },
    };
    string_of(&joined)
}

/// `p` resolved against the working directory `cwd` (see [`absolutize`]).
/// The host then canonicalizes the result.
pub fn abs(cwd: &str, p: &str, style: PathStyle) -> (r: String)
    ensures
        r@ == absolutize(cwd@, p@, style),
{
    let q = chars_of(p);
    if is_absolute_exec(&q, style) {
        p.to_owned()
    } else {
        join_paths(cwd, p, style)
    }
}

// ---------------------------------------------------------------------------
// Joining, then rewriting into guest form
// ---------------------------------------------------------------------------

/// Law: on Unix, rewriting a relative path resolved against a directory
/// gives the directory's components followed by the path's own: the
/// rendering of the joined path is the rendering of `dir` followed by the
/// rendering of `p` (so its guest path is `dir`'s guest path extended by
/// `p`'s components).
pub proof fn law_unix_join_then_guest_form(dir: Seq<char>, p: Seq<char>)
    requires
        !has_root(p, PathStyle::Unix),
    ensures
        render(body_pieces(join(dir, p, PathStyle::Unix), PathStyle::Unix)) == render(
            body_pieces(dir, PathStyle::Unix),
        ) + render(body_pieces(p, PathStyle::Unix)),
{
    let u = PathStyle::Unix;
    let j = join(dir, p, u);
    assert(j.skip(0) =~= j);
    assert(dir.skip(0) =~= dir);
    assert(p.skip(0) =~= p);
    lemma_split_nonempty(dir, u, false);
    lemma_split_nonempty(p, u, false);
    let sd = split(dir, u, false);
    let sp = split(p, u, false);
    assert(sp =~= seq![sp[0]] + sp.drop_first());
    if dir.len() > 0 && dir.last() != '/' {
        let d1 = dir + seq!['/'];
        assert(j == d1 + p);
        assert(d1.drop_last() =~= dir);
        assert(d1.last() == '/');
        let sd1 = split(d1, u, false);
        assert(sd1 == sd.push(Seq::empty()));
        lemma_split_concat(d1, p, u, false);
        assert(sd1.drop_last() =~= sd);
        assert(Seq::<char>::empty() + sp[0] =~= sp[0]);
        assert(split(j, u, false) =~= sd + sp);
        lemma_render_concat(sd, sp);
    } else {
        assert(j == dir + p);
        lemma_split_concat(dir, p, u, false);
        assert(sd.last() =~= Seq::<char>::empty()) by {
            if dir.len() > 0 {
                assert(sd == split(dir.drop_last(), u, false).push(Seq::empty()));
            } else {
                assert(sd =~= seq![Seq::<char>::empty()]);
            }
        }
        assert(sd.last() + sp[0] =~= sp[0]);
        assert(split(j, u, false) =~= sd.drop_last() + sp);
        lemma_render_concat(sd.drop_last(), sp);
        assert(sd =~= sd.drop_last().push(sd.last()));
        assert(guest_piece(sd.last()) =~= Seq::<char>::empty());
        assert(render(sd) =~= render(sd.drop_last()));
    }
}

// ---------------------------------------------------------------------------
// Laws of resolution
// ---------------------------------------------------------------------------

proof fn lemma_sep_index_facts(s: Seq<char>, from: int, verbatim: bool)
    requires
        0 <= from <= s.len(),
    ensures
        from <= sep_index(s, from, verbatim) <= s.len(),
        forall|i: int| from <= i < sep_index(s, from, verbatim) ==> !is_win_sep(#[trigger] s[i], verbatim),
        sep_index(s, from, verbatim) < s.len() ==> is_win_sep(s[sep_index(s, from, verbatim)], verbatim),
    decreases s.len() - from,
{
    if from < s.len() && !is_win_sep(s[from], verbatim) {
        lemma_sep_index_facts(s, from + 1, verbatim);
    }
}

proof fn lemma_sep_index_found(t: Seq<char>, from: int, e: int, verbatim: bool)
    requires
        0 <= from <= e < t.len(),
        forall|i: int| from <= i < e ==> !is_win_sep(#[trigger] t[i], verbatim),
        is_win_sep(t[e], verbatim),
    ensures
        sep_index(t, from, verbatim) == e,
    decreases e - from,
{
    if from < e {
        assert(!is_win_sep(t[from], verbatim));
        lemma_sep_index_found(t, from + 1, e, verbatim);
    }
}

/// A path that starts with `\\?\` is absolute.
proof fn lemma_verbatim_is_absolute(r: Seq<char>)
    requires
        starts_verbatim(r),
    ensures
        is_absolute(r, PathStyle::Windows),
{
    assert(windows_prefix(r) is Some);
}

/// On Windows an absolute directory joined with a path that has no prefix
/// and is not absolute gives an absolute path.
proof fn lemma_join_absolute_windows(c: Seq<char>, p: Seq<char>)
    requires
        is_absolute(c, PathStyle::Windows),
        !is_absolute(p, PathStyle::Windows),
        windows_prefix(p) is None,
    ensures
        is_absolute(join(c, p, PathStyle::Windows), PathStyle::Windows),
{
    let w = PathStyle::Windows;
    let r = join(c, p, w);
    let (k, n) = windows_prefix(c).unwrap();
    let bare_drive = match windows_prefix(c) {
        Some((Prefix::Disk(_), m)) => m == c.len(),
        _ => false,
    };
    let need_sep = c.len() > 0 && !is_win_sep(c.last(), false) && !bare_drive;
    if starts_verbatim(c) {
        lemma_sep_index_facts(c, 4, true);
        if c.len() >= 8 {
            lemma_sep_index_facts(c, 8, true);
            let se = sep_index(c, 8, true);
            if se < c.len() {
                lemma_sep_index_facts(c, se + 1, true);
            }
        }
        assert(n >= 4 && n <= c.len());
        assert(r[0] == c[0] && r[1] == c[1] && r[2] == c[2] && r[3] == c[3] && r.len() >= 4);
        lemma_verbatim_is_absolute(r);
    } else if c.len() >= 2 && is_win_sep(c[0], false) && is_win_sep(c[1], false) {
        assert(!is_verbatim_path(c, w));
        if c.len() >= 4 && c[2] == '.' && is_win_sep(c[3], false) {
            lemma_sep_index_facts(c, 4, false);
            assert(n >= 4);
            if has_root(p, w) {
                assert(r == c.take(n) + p);
            } else if need_sep {
                assert(r == c + seq!['\\'] + p);
            } else {
                assert(r == c + p);
            }
            assert(r[0] == c[0] && r[1] == c[1] && r[2] == c[2] && r[3] == c[3] && r.len() >= 4);
            assert(windows_prefix(r) is Some);
        } else {
            lemma_sep_index_facts(c, 2, false);
            let server_end = sep_index(c, 2, false);
            assert(server_end < c.len());
            lemma_sep_index_facts(c, server_end + 1, false);
            let share_end = sep_index(c, server_end + 1, false);
            assert(n == share_end);
            assert(share_end > server_end + 1);
            if has_root(p, w) {
                assert(r == c.take(n) + p);
                assert(p.len() > 0 && is_win_sep(p[0], false));
                assert(r[n] == p[0]);
            } else if need_sep {
                assert(r == c + seq!['\\'] + p);
                if n == c.len() {
                    assert(!is_win_sep(c[n - 1], false));
                    assert(r[n] == '\\');
                } else {
                    assert(r[n] == c[n]);
                }
            } else {
                assert(r == c + p);
                if n == c.len() {
                    assert(!is_win_sep(c[n - 1], false));
                    assert(false);
                }
                assert(r[n] == c[n]);
            }
            assert forall|i: int| 0 <= i < n implies r[i] == c[i] by {
                if has_root(p, w) {
                    assert(r[i] == c.take(n)[i]);
                }
            }
            assert forall|i: int| 2 <= i < server_end implies !is_win_sep(#[trigger] r[i], false) by {
                assert(r[i] == c[i]);
            }
            assert(r[server_end] == c[server_end]);
            lemma_sep_index_found(r, 2, server_end, false);
            assert forall|i: int| server_end + 1 <= i < share_end implies !is_win_sep(
                #[trigger] r[i],
                false,
            ) by {
                assert(r[i] == c[i]);
            }
            lemma_sep_index_found(r, server_end + 1, share_end, false);
            assert(!starts_verbatim(r));
            assert(r[2] == c[2] && r[3] == c[3]);
            assert(windows_prefix(r) is Some);
        }
    } else {
        assert(k is Disk && n == 2);
        assert(c.len() > 2 && is_win_sep(c[2], false));
        if has_root(p, w) {
            assert(r == c.take(2) + p);
            assert(r[2] == p[0]);
        } else if need_sep {
            assert(r == c + seq!['\\'] + p);
            assert(r[2] == c[2]);
        } else {
            assert(r == c + p);
            assert(r[2] == c[2]);
        }
        assert(r[0] == c[0] && r[1] == c[1]);
        assert(windows_prefix(r) == Some((Prefix::Disk(upper(c[0])), 2int)));
    }
}

/// Law: resolving an absolute path ignores the working directory: the
/// result is the path itself, whatever the directory.
pub proof fn law_abs_of_absolute(cwd1: Seq<char>, cwd2: Seq<char>, p: Seq<char>, style: PathStyle)
    requires
        is_absolute(p, style),
    ensures
        absolutize(cwd1, p, style) == p,
        absolutize(cwd2, p, style) == p,
{
}

/// Law: against an absolute working directory, resolving a path again
/// changes nothing; in particular a relative `p` resolves to the same path as
/// `cwd` joined with `p`.
pub proof fn law_abs_idempotent(cwd: Seq<char>, p: Seq<char>, style: PathStyle)
    requires
        is_absolute(cwd, style),
    ensures
        absolutize(cwd, absolutize(cwd, p, style), style) == absolutize(cwd, p, style),
        !is_absolute(p, style) ==> absolutize(cwd, join(cwd, p, style), style) == absolutize(
            cwd,
            p,
            style,
        ),
{
    if !is_absolute(p, style) {
        match style {
            PathStyle::Unix => {
                let j = join(cwd, p, style);
                assert(j[0] == cwd[0]);
            },
            PathStyle::Windows => {
                if windows_prefix(p) is None {
                    lemma_join_absolute_windows(cwd, p);
                }
            },
        }
    }
}

proof fn lemma_prefix_len_bounds(s: Seq<char>, style: PathStyle)
    ensures
        0 <= prefix_len(s, style) <= s.len(),
{
    if style == PathStyle::Windows && s.len() >= 2 {
        if s.len() >= 4 {
            lemma_sep_index_facts(s, 4, true);
            lemma_sep_index_facts(s, 4, false);
        }
        if s.len() >= 8 {
            lemma_sep_index_facts(s, 8, true);
            let se = sep_index(s, 8, true);
            if se < s.len() {
                lemma_sep_index_facts(s, se + 1, true);
            }
        }
        lemma_sep_index_facts(s, 2, false);
        let se = sep_index(s, 2, false);
        if se < s.len() {
            lemma_sep_index_facts(s, se + 1, false);
        }
    }
}

/// After a verbatim prefix comes `\` or nothing.
proof fn lemma_verbatim_prefix_ends_at_backslash(p: Seq<char>)
    requires
        is_verbatim_path(p, PathStyle::Windows),
        prefix_len(p, PathStyle::Windows) < p.len(),
    ensures
        p[prefix_len(p, PathStyle::Windows)] == '\\',
{
    lemma_sep_index_facts(p, 4, true);
    if p.len() >= 8 {
        lemma_sep_index_facts(p, 8, true);
        let se = sep_index(p, 8, true);
        if se < p.len() {
            lemma_sep_index_facts(p, se + 1, true);
        }
    }
}

proof fn lemma_render_verbatim_components(xs: Seq<Seq<char>>)
    ensures
        render(verbatim_components(xs)) == render(xs),
    decreases xs.len(),
{
    if xs.len() > 0 {
        lemma_render_verbatim_components(xs.drop_last());
        let prev = verbatim_components(xs.drop_last());
        if xs.last().len() == 0 {
            assert(guest_piece(xs.last()) =~= Seq::<char>::empty());
            assert(render(xs) =~= render(xs.drop_last()));
        } else {
            assert(prev.push(xs.last()).drop_last() =~= prev);
        }
    }
}

proof fn lemma_verbatim_components_no_backslash(xs: Seq<Seq<char>>)
    requires
        no_backslash(xs),
    ensures
        no_backslash(verbatim_components(xs)),
    decreases xs.len(),
{
    if xs.len() > 0 {
        let init = xs.drop_last();
        assert forall|k: int, j: int|
            0 <= k < init.len() && 0 <= j < init[k].len() implies #[trigger] init[k][j] != '\\' by {
            assert(init[k] == xs[k]);
        }
        lemma_verbatim_components_no_backslash(init);
        let prev = verbatim_components(init);
        let cur = verbatim_components(xs);
        assert forall|k: int, j: int|
            0 <= k < cur.len() && 0 <= j < cur[k].len() implies #[trigger] cur[k][j] != '\\' by {
            if k < prev.len() {
                assert(cur[k] == prev[k]);
            } else {
                assert(cur[k] == xs[xs.len() - 1]);
            }
        }
    }
}

/// A separator in front adds an empty first piece.
proof fn lemma_split_lead_sep(t: Seq<char>, style: PathStyle, verbatim: bool, c: char)
    requires
        is_sep(style, verbatim, c),
    ensures
        split(seq![c] + t, style, verbatim) == seq![Seq::<char>::empty()] + split(t, style, verbatim),
{
    let one = seq![c];
    let e = Seq::<char>::empty();
    assert(one.drop_last() =~= e);
    assert(split(one, style, verbatim) == split(e, style, verbatim).push(e));
    assert(split(one, style, verbatim) =~= seq![e, e]);
    lemma_split_concat(one, t, style, verbatim);
    lemma_split_nonempty(t, style, verbatim);
    let st = split(t, style, verbatim);
    assert(e + st[0] =~= st[0]);
    assert(seq![e] + seq![st[0]] + st.drop_first() =~= seq![e] + st);
}

proof fn lemma_render_lead_empty(xs: Seq<Seq<char>>)
    ensures
        render(seq![Seq::<char>::empty()] + xs) == render(xs),
{
    let e = Seq::<char>::empty();
    lemma_render_concat(seq![e], xs);
    assert(seq![e].drop_last() =~= Seq::<Seq<char>>::empty());
    assert(guest_piece(e) =~= e);
    assert(render(seq![e]) == render(seq![e].drop_last()) + guest_piece(seq![e].last()));
    assert(render(Seq::<Seq<char>>::empty()) =~= e);
    assert(render(seq![e]) =~= e);
    assert(e + render(xs) =~= render(xs));
}

/// Cutting components joined by `\` at `\` gives them back.
proof fn lemma_split_join_backslash(xs: Seq<Seq<char>>)
    requires
        xs.len() >= 1,
        no_backslash(xs),
    ensures
        split(join_backslash(xs), PathStyle::Windows, true) == xs,
    decreases xs.len(),
{
    let w = PathStyle::Windows;
    let last = xs.last();
    assert forall|j: int| 0 <= j < last.len() implies !is_sep(w, true, #[trigger] last[j]) by {
        assert(last[j] == xs[xs.len() - 1][j]);
    }
    lemma_split_no_sep(last, w, true);
    if xs.len() == 1 {
        assert(xs =~= seq![last]);
    } else {
        let init = xs.drop_last();
        assert forall|k: int, j: int|
            0 <= k < init.len() && 0 <= j < init[k].len() implies #[trigger] init[k][j] != '\\' by {
            assert(init[k] == xs[k]);
        }
        lemma_split_join_backslash(init);
        let a = join_backslash(init) + seq!['\\'];
        assert(a.drop_last() =~= join_backslash(init));
        assert(a.last() == '\\');
        assert(split(a, w, true) == init.push(Seq::empty()));
        lemma_split_concat(a, last, w, true);
        assert(init.push(Seq::<char>::empty()).drop_last() =~= init);
        assert(Seq::<char>::empty() + last =~= last);
        assert(join_backslash(xs) == a + last);
        assert(split(join_backslash(xs), w, true) =~= xs);
    }
}

/// The rendering of the pieces of `s`, written as its guest path with `/`
/// standing for nothing.
proof fn lemma_guest_path_render(s: Seq<char>, style: PathStyle)
    ensures
        (if guest_path(s, style) == seq!['/'] {
            Seq::<char>::empty()
        } else {
            guest_path(s, style)
        }) == render(body_pieces(s, style)),
{
    lemma_render_len_not_one(body_pieces(s, style));
    let r = render(body_pieces(s, style));
    if r.len() > 0 {
        assert(r != seq!['/']) by {
            if r == seq!['/'] {
                assert(r.len() == 1);
            }
        }
    }
}

/// A plain file or directory name: not empty, not `.` or `..`, without
/// separators, and (on Windows) not starting with a prefix such as `C:`.
pub open spec fn is_plain_name(n: Seq<char>, style: PathStyle) -> bool {
    &&& n.len() > 0
    &&& n != seq!['.']
    &&& n != seq!['.', '.']
    &&& forall|j: int| 0 <= j < n.len() ==> !is_sep(style, false, #[trigger] n[j])
    &&& prefix_of(n, style) is None
}

/// A plain name is one piece, and renders as `/name`.
proof fn lemma_plain_name_pieces(n: Seq<char>, style: PathStyle)
    requires
        is_plain_name(n, style),
    ensures
        split(n, style, false) == seq![n],
        render(seq![n]) == seq!['/'] + n,
{
    lemma_split_no_sep(n, style, false);
    let sn = seq![n];
    assert(guest_piece(n) == seq!['/'] + n);
    assert(sn.drop_last() =~= Seq::<Seq<char>>::empty());
    assert(render(sn) == render(sn.drop_last()) + guest_piece(sn.last()));
    assert(render(Seq::<Seq<char>>::empty()) =~= Seq::<char>::empty());
    assert(render(sn) =~= seq!['/'] + n);
}

/// Below a verbatim Windows path, a plain name is added as one more
/// component.
proof fn lemma_join_name_render_verbatim(p: Seq<char>, n: Seq<char>)
    requires
        is_plain_name(n, PathStyle::Windows),
        is_verbatim_path(p, PathStyle::Windows),
        prefix_of(join(p, n, PathStyle::Windows), PathStyle::Windows) == prefix_of(
            p,
            PathStyle::Windows,
        ),
    ensures
        render(body_pieces(join(p, n, PathStyle::Windows), PathStyle::Windows)) == render(
            body_pieces(p, PathStyle::Windows),
        ) + seq!['/'] + n,
{
    let w = PathStyle::Windows;
    let r = join(p, n, w);
    let l = prefix_len(p, w);
    lemma_prefix_len_bounds(p, w);
    lemma_plain_name_pieces(n, w);
    let sn = seq![n];
    assert(!is_absolute(n, w));
    let phys = physical_root(p);
    let rest = p.skip(if phys { l + 1 } else { l });
    let xs = split(rest, w, true);
    let start = verbatim_components(xs);
    assert(!(n.len() > 0 && is_win_sep(n[0], false))) by {
        assert(!is_sep(w, false, n[0]));
    }
    assert(sn.drop_last() =~= Seq::<Seq<char>>::empty());
    assert(append_components(start, sn) == append_component(
        append_components(start, Seq::<Seq<char>>::empty()),
        n,
    ));
    let stack = start.push(n);
    assert(append_component(start, n) == stack);
    assert(r == p.take(l) + (seq!['\\'] + join_backslash(stack)));
    assert(r.skip(l) =~= seq!['\\'] + join_backslash(stack));
    lemma_split_pieces_free(rest, w, true);
    assert(no_backslash(xs)) by {
        assert forall|k: int, j: int|
            0 <= k < xs.len() && 0 <= j < xs[k].len() implies #[trigger] xs[k][j] != '\\' by {
            assert(!is_sep(w, true, xs[k][j]));
        }
    }
    lemma_verbatim_components_no_backslash(xs);
    assert(no_backslash(stack)) by {
        assert forall|k: int, j: int|
            0 <= k < stack.len() && 0 <= j < stack[k].len() implies #[trigger] stack[k][j]
            != '\\' by {
            if k < start.len() {
                assert(stack[k] == start[k]);
            } else {
                assert(stack[k] == n);
                assert(!is_sep(w, false, n[j]));
            }
        }
    }
    lemma_split_join_backslash(stack);
    lemma_split_lead_sep(join_backslash(stack), w, true, '\\');
    lemma_render_lead_empty(stack);
    assert(stack.drop_last() =~= start);
    assert(render(body_pieces(r, w)) == render(start) + seq!['/'] + n);
    lemma_render_verbatim_components(xs);
    if phys {
        lemma_verbatim_prefix_ends_at_backslash(p);
        assert(p.skip(l) =~= seq!['\\'] + rest);
        lemma_split_lead_sep(rest, w, true, '\\');
        lemma_render_lead_empty(xs);
    } else {
        assert(rest =~= p.skip(l));
    }
}

/// Below a Windows path that is not verbatim, a plain name follows after a
/// separator.
proof fn lemma_join_name_render_plain(p: Seq<char>, n: Seq<char>)
    requires
        is_plain_name(n, PathStyle::Windows),
        !is_verbatim_path(p, PathStyle::Windows),
        prefix_of(join(p, n, PathStyle::Windows), PathStyle::Windows) == prefix_of(
            p,
            PathStyle::Windows,
        ),
    ensures
        render(body_pieces(join(p, n, PathStyle::Windows), PathStyle::Windows)) == render(
            body_pieces(p, PathStyle::Windows),
        ) + seq!['/'] + n,
{
    let w = PathStyle::Windows;
    let r = join(p, n, w);
    let l = prefix_len(p, w);
    lemma_prefix_len_bounds(p, w);
    lemma_plain_name_pieces(n, w);
    let sn = seq![n];
    assert(!is_absolute(n, w));
    assert(!has_root(n, w)) by {
        assert(!is_sep(w, false, n[0]));
    }
    let b = p.skip(l);
    let bare_drive = match windows_prefix(p) {
        Some((Prefix::Disk(_), m)) => m == p.len(),
        _ => false,
    };
    let need_sep = p.len() > 0 && !is_win_sep(p.last(), false) && !bare_drive;
    let sb = split(b, w, false);
    lemma_split_nonempty(b, w, false);
    if need_sep {
        assert(r == p + seq!['\\'] + n);
        let a = b + seq!['\\'];
        assert(r.skip(l) =~= a + n);
        assert(a.drop_last() =~= b);
        assert(split(a, w, false) == sb.push(Seq::empty()));
        lemma_split_concat(a, n, w, false);
        assert(sb.push(Seq::<char>::empty()).drop_last() =~= sb);
        assert(Seq::<char>::empty() + n =~= n);
        assert(split(a + n, w, false) =~= sb + sn);
        lemma_render_concat(sb, sn);
    } else {
        assert(r == p + n);
        assert(r.skip(l) =~= b + n);
        lemma_split_concat(b, n, w, false);
        assert(sb.last() =~= Seq::<char>::empty()) by {
            if b.len() > 0 {
                assert(b.last() == p.last());
                assert(b.drop_last().push(b.last()) =~= b);
                assert(sb == split(b.drop_last(), w, false).push(Seq::empty()));
            } else {
                assert(sb =~= seq![Seq::<char>::empty()]);
            }
        }
        assert(sb.last() + n =~= n);
        assert(split(b + n, w, false) =~= sb.drop_last() + sn);
        lemma_render_concat(sb.drop_last(), sn);
        assert(sb =~= sb.drop_last().push(sb.last()));
        assert(guest_piece(sb.last()) =~= Seq::<char>::empty());
        assert(render(sb) =~= render(sb.drop_last()));
    }
}

/// The pieces after the prefix of `p` joined with a plain name: those of `p`
/// followed by the name.
proof fn lemma_join_name_render(p: Seq<char>, n: Seq<char>, style: PathStyle)
    requires
        is_plain_name(n, style),
        prefix_of(join(p, n, style), style) == prefix_of(p, style),
    ensures
        render(body_pieces(join(p, n, style), style)) == render(body_pieces(p, style)) + seq!['/']
            + n,
{
    lemma_plain_name_pieces(n, style);
    match style {
        PathStyle::Unix => {
            law_unix_join_then_guest_form(p, n);
            assert(n.skip(0) =~= n);
        },
        PathStyle::Windows => {
            if is_verbatim_path(p, style) {
                lemma_join_name_render_verbatim(p, n);
            } else {
                lemma_join_name_render_plain(p, n);
            }
        },
    }
}

/// Law: joining a path with a plain name and rewriting the result gives the
/// path's guest path extended by `/name` (starting from nothing when the
/// path's guest path is just `/`). Stated where the name does not complete a
/// prefix of the path (on Windows `\\server` joined with `share` becomes the
/// prefix `\\server\share`, and the name vanishes from the guest path).
pub proof fn law_join_name_then_guest_form(p: Seq<char>, n: Seq<char>, style: PathStyle)
    requires
        is_plain_name(n, style),
        prefix_of(join(p, n, style), style) == prefix_of(p, style),
    ensures
        guest_path(join(p, n, style), style) == (if guest_path(p, style) == seq!['/'] {
            Seq::<char>::empty()
        } else {
            guest_path(p, style)
        }) + seq!['/'] + n,
{
    lemma_join_name_render(p, n, style);
    lemma_guest_path_render(p, style);
}

// ---------------------------------------------------------------------------
// Laws in terms of characters
// ---------------------------------------------------------------------------

/// Law: upper-casing a drive letter: a lower-case ASCII letter moves up by
/// 32 code points, an upper-case one stays.
pub proof fn law_upper_drive_letter(c: char)
    ensures
        'a' <= c <= 'z' ==> upper(c) as u32 == c as u32 - 32,
        'A' <= c <= 'Z' ==> upper(c) == c,
{
}

/// Law: the drive of a Windows path is the letter it starts with, in upper
/// case, both for a plain drive path `X:...` and for a verbatim one
/// `\\?\X:` or `\\?\X:\...`.
pub proof fn law_drive_is_the_paths_own_letter(s: Seq<char>)
    ensures
        s.len() >= 2 && is_ascii_letter(s[0]) && s[1] == ':' ==> drive_of(s) == Some(upper(s[0])),
        s.len() >= 6 && s[0] == '\\' && s[1] == '\\' && s[2] == '?' && s[3] == '\\'
            && is_ascii_letter(s[4]) && s[5] == ':' && (s.len() == 6 || s[6] == '\\')
            ==> drive_of(s) == Some(upper(s[4])),
{
}

/// Law: a directory on the working directory's drive, written `X:...` with
/// the same letter in either case, is reachable through the preopened root;
/// on another drive it is not.
pub proof fn law_same_drive_is_reachable(dir: Seq<char>, canonical_cwd: Seq<char>)
    requires
        dir.len() >= 2,
        is_ascii_letter(dir[0]),
        dir[1] == ':',
    ensures
        within_preopened_root(dir, canonical_cwd, PathStyle::Windows) <==> drive_of(canonical_cwd)
            == Some(upper(dir[0])),
{
    law_drive_is_the_paths_own_letter(dir);
}

/// Law: on Unix a path is absolute exactly when it starts with `/`, and a
/// path resolved against a working directory that starts with `/` starts
/// with `/` too.
pub proof fn law_unix_absolute(cwd: Seq<char>, p: Seq<char>)
    ensures
        is_absolute(p, PathStyle::Unix) <==> (p.len() > 0 && p[0] == '/'),
        cwd.len() > 0 && cwd[0] == '/' ==> ({
            let r = absolutize(cwd, p, PathStyle::Unix);
            r.len() > 0 && r[0] == '/'
        }),
{
    let r = absolutize(cwd, p, PathStyle::Unix);
    if cwd.len() > 0 && cwd[0] == '/' && !(p.len() > 0 && p[0] == '/') {
        assert(r[0] == cwd[0]);
    }
}

/// Law: which Windows paths are absolute: a drive path with a separator
/// after the colon (`X:\...`, `X:/...`) and any verbatim path (`\\?\...`)
/// are; a drive-relative path (`X:name`) and a path that starts with neither
/// a separator nor a drive are not.
pub proof fn law_windows_absolute(s: Seq<char>)
    ensures
        s.len() >= 3 && is_ascii_letter(s[0]) && s[1] == ':' && is_win_sep(s[2], false)
            ==> is_absolute(s, PathStyle::Windows),
        s.len() >= 2 && is_ascii_letter(s[0]) && s[1] == ':' && !(s.len() >= 3 && is_win_sep(
            s[2],
            false,
        )) ==> !is_absolute(s, PathStyle::Windows),
        starts_verbatim(s) ==> is_absolute(s, PathStyle::Windows),
        (s.len() == 0 || !is_win_sep(s[0], false)) && !(s.len() >= 2 && is_ascii_letter(s[0])
            && s[1] == ':') ==> !is_absolute(s, PathStyle::Windows),
{
    if starts_verbatim(s) {
        lemma_verbatim_is_absolute(s);
    }
}

/// Law: on Unix a relative path (not starting with `/`) is appended to the
/// base, after a `/` unless the base is empty or already ends in one; the
/// base is kept whole.
pub proof fn law_unix_join_relative(base: Seq<char>, p: Seq<char>)
    requires
        p.len() == 0 || p[0] != '/',
    ensures
        join(base, p, PathStyle::Unix) == if base.len() > 0 && base.last() != '/' {
            base + seq!['/'] + p
        } else {
            base + p
        },
{
}

/// Law: on Windows a relative path without prefix or root (its components
/// separated by `\` or `/`) is appended to a base that is not verbatim,
/// after a `\` unless the base is empty, already ends in a separator, or is
/// a bare drive `X:`; the base is kept whole.
pub proof fn law_windows_join_relative(base: Seq<char>, p: Seq<char>)
    requires
        !starts_verbatim(base),
        p.len() == 0 || (!is_win_sep(p[0], false) && !(p.len() >= 2 && is_ascii_letter(p[0])
            && p[1] == ':')),
    ensures
        join(base, p, PathStyle::Windows) == if base.len() > 0 && !is_win_sep(base.last(), false)
            && !(base.len() == 2 && is_ascii_letter(base[0]) && base[1] == ':') {
            base + seq!['\\'] + p
        } else {
            base + p
        },
{
    let w = PathStyle::Windows;
    assert(windows_prefix(p) is None);
    assert(!is_verbatim_path(base, w));
    assert(!has_root(p, w));
}

} // verus!
