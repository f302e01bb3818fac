//! Names of the files Carta writes: the MP4 next to the original, a name the
//! user typed (sanitised so it cannot leave the source folder), and the
//! external `.srt` files, which follow the MP4's name so the TV finds them.
//!
//! Path handling follows `std::path::Path` under the Unix path rules of the
//! targets this application is built for: what `file_name`, `file_stem`,
//! `parent` and `join` give is spelled out below from their documentation.

use vstd::prelude::*;
use crate::text::{
    chars_end_with, chars_eq, chars_of, decimal, ends_with, folded, is_ascii_text, ascii_lower,
    ascii_lower_char, is_white_space, lemma_decimal_injective, lemma_trim_within, lowercased,
    push_decimal, push_str, replace_all, replace_str, string_of, trim, trim_end, trim_start,
    trim_str, to_lowercase,
};

verus! {

/// The characters held by an optional string.
pub open spec fn opt_chars(o: Option<String>) -> Option<Seq<char>> {
    match o {
        Some(s) => Some(s@),
        None => None,
    }
}

/// What follows the last `/` of `s` (all of `s` when it holds none).
pub open spec fn after_last_slash(s: Seq<char>) -> Seq<char>
    decreases s.len(),
{
    if s.len() == 0 || s.last() == '/' {
        Seq::empty()
    } else {
        after_last_slash(s.drop_last()).push(s.last())
    }
}

/// What precedes the last `/` of `s`; none when it holds no `/`.
pub open spec fn before_last_slash(s: Seq<char>) -> Option<Seq<char>>
    decreases s.len(),
{
    if s.len() == 0 {
        None
    } else if s.last() == '/' {
        Some(s.drop_last())
    } else {
        before_last_slash(s.drop_last())
    }
}

/// What `Path::file_name` gives for the path written `path`: its last
/// component, where empty components (repeated or trailing separators) and
/// `.` components are skipped, unless that component is `..` or there is
/// none.
pub open spec fn path_file_name(path: Seq<char>) -> Option<Seq<char>>
    decreases path.len(),
{
    let seg = after_last_slash(path);
    if seg.len() == 0 || seg == seq!['.'] {
        match before_last_slash(path) {
            Some(rest) => if rest.len() < path.len() {
                path_file_name(rest)
            } else {
                None
            },
            None => None,
        }
    } else if seg == seq!['.', '.'] {
        None
    } else {
        Some(seg)
    }
}

/// The position of the last `.` of `n`.
pub open spec fn last_dot(n: Seq<char>) -> Option<int>
    decreases n.len(),
{
    if n.len() == 0 {
        None
    } else if n.last() == '.' {
        Some(n.len() - 1)
    } else {
        last_dot(n.drop_last())
    }
}

/// The stem of the file name `n`: all of it when it holds no `.` but a first
/// one (or is `..`), else what precedes its last `.`.
pub open spec fn name_stem(n: Seq<char>) -> Seq<char> {
    if n == seq!['.', '.'] {
        n
    } else {
        match last_dot(n) {
            Some(k) => if k > 0 {
                n.take(k)
            } else {
                n
            },
            None => n,
        }
    }
}

/// What `Path::file_stem` gives for the path written `path`: the stem of
/// its file name.
pub open spec fn path_file_stem(path: Seq<char>) -> Option<Seq<char>> {
    match path_file_name(path) {
        Some(n) => Some(name_stem(n)),
        None => None,
    }
}

/// The path starts at the root, `/`.
pub open spec fn has_root(path: Seq<char>) -> bool {
    path.len() > 0 && path[0] == '/'
}

/// The path starts with a `.` component, as in `.` or `./a`.
pub open spec fn starts_cur_dir(path: Seq<char>) -> bool {
    !has_root(path) && path.len() > 0 && path[0] == '.' && (path.len() == 1 || path[1] == '/')
}

/// How many characters come before the first component of the body: the
/// root `/`, or a leading `.`.
pub open spec fn body_start(path: Seq<char>) -> int {
    if has_root(path) || starts_cur_dir(path) {
        1
    } else {
        0
    }
}

/// `p` without its last body segment and the `/` before it.
pub open spec fn cut_segment(p: Seq<char>, start: int) -> Seq<char> {
    match before_last_slash(p.skip(start)) {
        Some(r) => p.take(start) + r,
        None => p.take(start),
    }
}

/// `p` without its trailing separators and `.` segments past `start`.
pub open spec fn trim_back(p: Seq<char>, start: int) -> Seq<char>
    decreases p.len(),
{
    if p.len() > start {
        let seg = after_last_slash(p.skip(start));
        let c = cut_segment(p, start);
        if (seg.len() == 0 || seg == seq!['.']) && c.len() < p.len() {
            trim_back(c, start)
        } else {
            p
        }
    } else {
        p
    }
}

/// The parent of `p`, read from its last body segment backwards: empty
/// segments and `.` are skipped; the path before the first name or `..`
/// found, with its trailing separators and `.` segments trimmed, is the
/// parent. Without one, the root has no parent, a leading `.` has the empty
/// path, and the empty path has none.
pub open spec fn parent_from(p: Seq<char>, start: int, root: bool, cur: bool) -> Option<Seq<char>>
    decreases p.len(),
{
    if p.len() > start {
        let seg = after_last_slash(p.skip(start));
        let c = cut_segment(p, start);
        if seg.len() == 0 || seg == seq!['.'] {
            if c.len() < p.len() {
                parent_from(c, start, root, cur)
            } else {
                None
            }
        } else {
            Some(trim_back(c, start))
        }
    } else if root {
        None
    } else if cur {
        Some(Seq::empty())
    } else {
        None
    }
}

/// What `Path::parent` gives for the path written `path`: the path without
/// its final component, unless that component is the root or there is none.
pub open spec fn path_parent(path: Seq<char>) -> Option<Seq<char>> {
    parent_from(path, body_start(path), has_root(path), starts_cur_dir(path))
}

/// What `Path::join` gives for the folder `dir` and the name `name`: an
/// absolute `name` replaces the folder; otherwise `name` follows the folder,
/// after a `/` unless the folder is empty or already ends in one.
pub open spec fn path_join(dir: Seq<char>, name: Seq<char>) -> Seq<char> {
    if name.len() > 0 && name[0] == '/' {
        name
    } else if dir.len() == 0 || dir.last() == '/' {
        dir + name
    } else {
        dir + seq!['/'] + name
    }
}

/// Final component of a path.
///
/// Trusted wrapper around `Path::file_name` (then `OsStr::to_str`, which
/// cannot fail on a component of a `&str`). The contract states what the
/// documentation of `file_name` and `Components` gives: the last component,
/// skipping repeated and trailing separators and `.` components; none when
/// that component is `..` or the path has no component.
#[verifier::external_body]
pub(crate) fn file_name(path: &str) -> (r: Option<String>)
    ensures
        opt_chars(r) == path_file_name(path@),
{
    let name = std::path::Path::new(path).file_name()?;
    Some(name.to_str()?.to_string())
}

/// File name without its extension.
///
/// Trusted wrapper around `Path::file_stem` (then `OsStr::to_str`). The
/// contract states what its documentation gives: none without a file name;
/// the whole file name when it holds no `.`, or only a first one; else what
/// precedes the last `.`.
#[verifier::external_body]
pub(crate) fn file_stem(path: &str) -> (r: Option<String>)
    ensures
        opt_chars(r) == path_file_stem(path@),
{
    let stem = std::path::Path::new(path).file_stem()?;
    Some(stem.to_str()?.to_string())
}

/// The folder a path sits in.
///
/// Trusted wrapper around `Path::parent` (then `Path::to_str`, which cannot
/// fail on a part of a `&str`). The contract states what the documentation
/// of `parent` and `Components` gives: the path without its final component
/// (repeated and trailing separators and `.` components being no
/// components, a leading `.` being one), none when that component is the
/// root or the path has none.
#[verifier::external_body]
pub(crate) fn parent(path: &str) -> (r: Option<String>)
    ensures
        opt_chars(r) == path_parent(path@),
{
    let dir = std::path::Path::new(path).parent()?;
    Some(dir.to_str()?.to_string())
}

/// `name` placed in the folder `dir`, as `Path::join` places it.
pub fn join(dir: &str, name: &str) -> (r: String)
    ensures
        r@ == path_join(dir@, name@),
{
    let n = chars_of(name);
    if n.len() > 0 && n[0] == '/' {
        return string_of(&n);
    }
    let d = chars_of(dir);
    let mut out = string_of(&d);
    if d.len() > 0 && d[d.len() - 1] != '/' {
        push_str(&mut out, "/");
        proof {
            reveal_strlit("/");
            assert("/"@ =~= seq!['/']);
        }
    }
    push_str(&mut out, name);
    out
}

proof fn lemma_after_last_slash_clean(s: Seq<char>)
    ensures
        !after_last_slash(s).contains('/'),
        !s.contains('/') ==> after_last_slash(s) == s,
    decreases s.len(),
{
    if s.len() > 0 && s.last() != '/' {
        let init = s.drop_last();
        lemma_after_last_slash_clean(init);
        let a = after_last_slash(s);
        assert forall|k: int| 0 <= k < a.len() implies a[k] != '/' by {
            if k < a.len() - 1 {
                assert(a[k] == after_last_slash(init)[k]);
            }
        }
        if !s.contains('/') {
            assert forall|k: int| 0 <= k < init.len() implies init[k] != '/' by {
                assert(init[k] == s[k]);
            }
            assert(init.push(s.last()) =~= s);
        }
    } else if s.len() > 0 {
        assert(s.contains('/')) by {
            assert(s[s.len() - 1] == '/');
        }
    }
}

/// A file name never holds `/`.
pub proof fn lemma_file_name_clean(path: Seq<char>)
    ensures
        path_file_name(path) matches Some(n) ==> !n.contains('/') && n.len() > 0 && n != seq![
            '.',
        ] && n != seq!['.', '.'],
    decreases path.len(),
{
    lemma_after_last_slash_clean(path);
    let seg = after_last_slash(path);
    if seg.len() == 0 || seg == seq!['.'] {
        match before_last_slash(path) {
            Some(rest) => if rest.len() < path.len() {
                lemma_file_name_clean(rest);
            },
            None => {},
        }
    }
}

/// A single component other than `.` and `..` is its own file name.
pub proof fn lemma_file_name_of_component(n: Seq<char>)
    requires
        !n.contains('/'),
        n.len() > 0,
        n != seq!['.'],
        n != seq!['.', '.'],
    ensures
        path_file_name(n) == Some(n),
{
    lemma_after_last_slash_clean(n);
}

proof fn lemma_take_clean(n: Seq<char>, k: int)
    requires
        !n.contains('/'),
        0 <= k <= n.len(),
    ensures
        !n.take(k).contains('/'),
{
    assert forall|i: int| 0 <= i < k implies n.take(k)[i] != '/' by {
        assert(n.take(k)[i] == n[i]);
    }
}

/// A file stem never holds `/`.
pub proof fn lemma_file_stem_clean(path: Seq<char>)
    ensures
        path_file_stem(path) matches Some(s) ==> !s.contains('/'),
{
    lemma_file_name_clean(path);
    if let Some(n) = path_file_name(path) {
        if n != seq!['.', '.'] {
            if let Some(k) = last_dot(n) {
                if k > 0 {
                    lemma_last_dot_in(n);
                    lemma_take_clean(n, k);
                }
            }
        }
    }
}

proof fn lemma_last_dot_in(n: Seq<char>)
    ensures
        last_dot(n) matches Some(k) ==> 0 <= k < n.len(),
    decreases n.len(),
{
    if n.len() > 0 && n.last() != '.' {
        lemma_last_dot_in(n.drop_last());
    }
}

/// `.mp4`
pub open spec fn mp4_ext() -> Seq<char> {
    seq!['.', 'm', 'p', '4']
}

/// `video`, the stem used when a path has none.
pub open spec fn video_stem() -> Seq<char> {
    seq!['v', 'i', 'd', 'e', 'o']
}

/// A cleaned file name made into an MP4 name: refused when empty, `.` or
/// `..`; kept when it already ends in `.mp4` in any case; else given `.mp4`.
pub open spec fn forced_mp4(name: Seq<char>) -> Option<Seq<char>> {
    if name.len() == 0 || name == seq!['.'] || name == seq!['.', '.'] {
        None
    } else if ends_with(folded(name), mp4_ext()) {
        Some(name)
    } else {
        Some(name + mp4_ext())
    }
}

/// The name that a hand-typed `typed` becomes: only its final path
/// component, trimmed, with the `.mp4` extension forced.
pub open spec fn safe_name(typed: Seq<char>) -> Option<Seq<char>> {
    match path_file_name(trim(typed)) {
        Some(f) => forced_mp4(trim(f)),
        None => None,
    }
}

fn mp4_chars() -> (r: Vec<char>)
    ensures
        r@ == mp4_ext(),
{
    let v = vec!['.', 'm', 'p', '4'];
    assert(v@ =~= mp4_ext());
    v
}

/// Cleans a hand-typed name: keeps only the file name, so no directory part
/// can escape the source folder, and forces the `.mp4` extension. `None` when
/// nothing usable is left.
///
/// Besides the exact result, the contract states three promises: the name
/// holds no `/`, it ends in `.mp4` (in the case typed, or lowercased), and a
/// blank entry gives `None`.
pub fn safe_output_name(typed: &str) -> (r: Option<String>)
    ensures
        opt_chars(r) == safe_name(typed@),
        r matches Some(n) ==> !n@.contains('/'),
        r matches Some(n) ==> ends_with(n@, mp4_ext()) || ends_with(folded(n@), mp4_ext()),
        trim(typed@).len() == 0 ==> r is None,
        r matches Some(n) ==> safe_name(n@) == Some(n@),
{
    let t = trim_str(typed);
    let f = match file_name(t.as_str()) {
        Some(f) => f,
        None => return None,
    };
    let name = trim_str(f.as_str());
    proof {
        lemma_file_name_clean(t@);
        lemma_trim_within(f@);
    }
    let chars = chars_of(name.as_str());
    let dot = vec!['.'];
    let dotdot = vec!['.', '.'];
    assert(dot@ =~= seq!['.']);
    assert(dotdot@ =~= seq!['.', '.']);
    if chars.len() == 0 || chars_eq(&chars, &dot) || chars_eq(&chars, &dotdot) {
        return None;
    }
    let lower = lowercased(name.as_str());
    let lower_chars = chars_of(lower.as_str());
    let ext = mp4_chars();
    if chars_end_with(&lower_chars, &ext) {
        proof {
            lemma_safe_name_stable(typed@);
        }
        Some(name)
    } else {
        let mut out = name;
        push_str(&mut out, ".mp4");
        proof {
            reveal_strlit(".mp4");
            assert(".mp4"@ =~= mp4_ext());
            assert(out@.subrange(out@.len() - 4, out@.len() as int) =~= mp4_ext());
            assert forall|c: char| out@.contains(c) implies c != '/' by {
                let k = choose|k: int| 0 <= k < out@.len() && out@[k] == c;
                if k < name@.len() {
                    assert(name@.contains(c));
                }
            }
        }
        // Lowercasing the result as a second cleaning would: it ends in
        // `.mp4` whatever the name, so no second `.mp4` would be added.
        let _again = to_lowercase(out.as_str());
        proof {
            assert(is_ascii_text(mp4_ext())) by {
                assert forall|k: int| 0 <= k < 4 implies (mp4_ext()[k] as u32) < 128 by {}
            }
            assert(ends_with(out@, mp4_ext()));
            assert(ascii_lower(mp4_ext()) =~= mp4_ext());
            assert(folded(out@) == _again@);
            lemma_safe_name_stable(typed@);
        }
        Some(out)
    }
}


/// The name the MP4 gets before any clash is considered: the typed name when
/// there is one and it survives cleaning, else the input's stem with `.mp4`.
pub open spec fn chosen_name(input: Seq<char>, typed: Option<Seq<char>>) -> Seq<char> {
    let fallback = match path_file_stem(input) {
        Some(stem) => stem + mp4_ext(),
        None => video_stem() + mp4_ext(),
    };
    match typed {
        Some(t) => match safe_name(t) {
            Some(n) => n,
            None => fallback,
        },
        None => fallback,
    }
}

/// The folder of `path`, `.` when it has none.
pub open spec fn folder_of(path: Seq<char>) -> Seq<char> {
    match path_parent(path) {
        Some(d) => d,
        None => seq!['.'],
    }
}

/// The stem of `path`, `video` when it has none.
pub open spec fn stem_of(path: Seq<char>) -> Seq<char> {
    match path_file_stem(path) {
        Some(s) => s,
        None => video_stem(),
    }
}

/// `stem (n).mp4`, the name tried when the chosen one is taken.
pub open spec fn numbered_mp4(stem: Seq<char>, n: nat) -> Seq<char> {
    stem + seq![' ', '('] + decimal(n) + seq![')'] + mp4_ext()
}

/// The file name of the `attempt`-th candidate for the MP4 made from
/// `input`: the chosen name first; the `n`-th after that is `stem (n).mp4`.
pub open spec fn output_name(input: Seq<char>, typed: Option<Seq<char>>, attempt: nat) -> Seq<
    char,
> {
    let chosen = chosen_name(input, typed);
    if attempt <= 1 {
        chosen
    } else {
        numbered_mp4(stem_of(chosen), attempt)
    }
}

/// The path of the `attempt`-th candidate for the MP4 made from `input`:
/// its file name, in the folder of the original.
pub open spec fn output_candidate(input: Seq<char>, typed: Option<Seq<char>>, attempt: nat) -> Seq<
    char,
> {
    path_join(folder_of(input), output_name(input, typed, attempt))
}

/// Output path for the MP4 made from `input`, next to the original.
///
/// `attempt` counts the candidates tried so far: 1 (or 0) is the chosen name
/// itself, with no suffix, since coming from `.mkv` the extension already
/// differs; each later attempt `n` is `stem (n).mp4`. The caller moves on to
/// the next attempt while the candidate exists, so nothing is overwritten.
/// A typed name takes over from the input's name, sanitised first; a blank
/// one falls back to the proposed name.
pub fn output_for(input: &str, typed: Option<&str>, attempt: u64) -> (r: String)
    ensures
        r@ == output_candidate(
            input@,
            match typed {
                Some(t) => Some(t@),
                None => None,
            },
            attempt as nat,
        ),
        typed matches Some(t) && trim(t@).len() == 0 ==> r@ == output_candidate(
            input@,
            None,
            attempt as nat,
        ),
{
    let dot = vec!['.'];
    assert(dot@ =~= seq!['.']);
    let dir = match parent(input) {
        Some(d) => d,
        None => string_of(&dot),
    };
    let mut fallback = match file_stem(input) {
        Some(stem) => stem,
        None => string_of(&video_chars()),
    };
    push_str(&mut fallback, ".mp4");
    proof {
        reveal_strlit(".mp4");
        assert(".mp4"@ =~= mp4_ext());
    }
    let chosen = match typed {
        Some(t) => match safe_output_name(t) {
            Some(n) => n,
            None => fallback,
        },
        None => fallback,
    };
    if attempt <= 1 {
        return join(dir.as_str(), chosen.as_str());
    }
    let mut name = match file_stem(chosen.as_str()) {
        Some(stem) => stem,
        None => string_of(&video_chars()),
    };
    push_str(&mut name, " (");
    push_decimal(&mut name, attempt);
    push_str(&mut name, ").mp4");
    proof {
        reveal_strlit(" (");
        reveal_strlit(").mp4");
        assert(" ("@ =~= seq![' ', '(']);
        assert(").mp4"@ =~= seq![')'] + mp4_ext());
        assert(name@ =~= numbered_mp4(stem_of(chosen@), attempt as nat));
    }
    join(dir.as_str(), name.as_str())
}

fn video_chars() -> (r: Vec<char>)
    ensures
        r@ == video_stem(),
{
    let v = vec!['v', 'i', 'd', 'e', 'o'];
    assert(v@ =~= video_stem());
    v
}

/// The file name part of `path`, or `fallback` when it has none.
pub fn file_name_or(path: &str, fallback: &str) -> (r: String)
    ensures
        r@ == match path_file_name(path@) {
            Some(n) => n,
            None => fallback@,
        },
{
    match file_name(path) {
        Some(n) => n,
        None => string_of(&chars_of(fallback)),
    }
}


/// `.srt`
pub open spec fn srt_ext() -> Seq<char> {
    seq!['.', 's', 'r', 't']
}

/// The name of the subtitle file for the MP4 at `output`: `stem.srt` when the
/// file carries a single text track, `stem.lang.srt` when it carries several.
/// It follows the MP4's name, or the TV would not pick it up.
pub open spec fn subtitle_base(output: Seq<char>, lang: Seq<char>, single: bool) -> Seq<char> {
    if single {
        stem_of(output) + srt_ext()
    } else {
        stem_of(output) + seq!['.'] + lang + srt_ext()
    }
}

/// The path of the `attempt`-th candidate for that subtitle file: the base
/// name next to the MP4 first, then with `.srt` turned into `.n.srt`.
pub open spec fn subtitle_candidate(output: Seq<char>, lang: Seq<char>, single: bool, attempt: nat) -> Seq<
    char,
> {
    let base = subtitle_base(output, lang, single);
    if attempt <= 1 {
        path_join(folder_of(output), base)
    } else {
        path_join(
            folder_of(output),
            replace_all(base, srt_ext(), seq!['.'] + decimal(attempt) + srt_ext()),
        )
    }
}

/// Where the subtitle track in language `lang` is extracted, for the MP4 at
/// `output_path`. `single` says the file has one text track only. As for the
/// MP4, `attempt` counts the candidates tried, and the caller moves on while
/// the candidate exists.
pub fn subtitle_target(output_path: &str, lang: &str, single: bool, attempt: u64) -> (r: String)
    ensures
        r@ == subtitle_candidate(output_path@, lang@, single, attempt as nat),
{
    let dot = vec!['.'];
    assert(dot@ =~= seq!['.']);
    let dir = match parent(output_path) {
        Some(d) => d,
        None => string_of(&dot),
    };
    let mut base = match file_stem(output_path) {
        Some(stem) => stem,
        None => string_of(&video_chars()),
    };
    if !single {
        push_str(&mut base, ".");
        push_str(&mut base, lang);
    }
    push_str(&mut base, ".srt");
    proof {
        reveal_strlit(".");
        reveal_strlit(".srt");
        assert("."@ =~= seq!['.']);
        assert(".srt"@ =~= srt_ext());
        assert(base@ =~= subtitle_base(output_path@, lang@, single));
    }
    if attempt <= 1 {
        return join(dir.as_str(), base.as_str());
    }
    let mut rep = string_of(&dot);
    push_decimal(&mut rep, attempt);
    push_str(&mut rep, ".srt");
    let renamed = replace_str(base.as_str(), ".srt", rep.as_str());
    join(dir.as_str(), renamed.as_str())
}

/// Law: by default the MP4 sits next to the original and keeps its name,
/// with the extension swapped for `.mp4`.
pub proof fn law_default_output_swaps_extension(input: Seq<char>)
    requires
        path_file_stem(input) is Some,
    ensures
        output_candidate(input, None, 1) == path_join(
            folder_of(input),
            path_file_stem(input)->0 + mp4_ext(),
        ),
{
}

/// Law: the names tried for the MP4 after the chosen one are all different,
/// so each attempt looks at a new file.
pub proof fn law_numbered_names_differ(stem: Seq<char>, m: nat, n: nat)
    requires
        m != n,
    ensures
        numbered_mp4(stem, m) != numbered_mp4(stem, n),
{
    let a = numbered_mp4(stem, m);
    let b = numbered_mp4(stem, n);
    if a == b {
        let p = stem.len() + 2;
        let dm = decimal(m);
        let dn = decimal(n);
        assert(a.len() == p + dm.len() + 5);
        assert(b.len() == p + dn.len() + 5);
        assert(dm.len() == dn.len());
        assert forall|i: int| 0 <= i < dm.len() implies dm[i] == dn[i] by {
            assert(a[p + i] == dm[i]);
            assert(b[p + i] == dn[i]);
        }
        assert(dm =~= dn);
        lemma_decimal_injective(m, n);
    }
}


proof fn lemma_trim_start_head(x: Seq<char>)
    ensures
        trim_start(x).len() > 0 ==> !is_white_space(trim_start(x)[0]),
    decreases x.len(),
{
    if x.len() > 0 && is_white_space(x[0]) {
        lemma_trim_start_head(x.drop_first());
    }
}

proof fn lemma_trim_end_shape(y: Seq<char>)
    ensures
        trim_end(y) == y.take(trim_end(y).len() as int),
        trim_end(y).len() <= y.len(),
        trim_end(y).len() > 0 ==> !is_white_space(trim_end(y).last()),
    decreases y.len(),
{
    if y.len() > 0 && is_white_space(y.last()) {
        lemma_trim_end_shape(y.drop_last());
        let z = trim_end(y.drop_last());
        assert(y.drop_last().take(z.len() as int) =~= y.take(z.len() as int));
    } else {
        assert(y.take(y.len() as int) =~= y);
    }
}

/// A trimmed text starts and ends with a character that is not a blank.
proof fn lemma_trim_ends(x: Seq<char>)
    ensures
        trim(x).len() > 0 ==> !is_white_space(trim(x)[0]) && !is_white_space(trim(x).last()),
{
    lemma_trim_start_head(x);
    lemma_trim_end_shape(trim_start(x));
    let y = trim_start(x);
    if trim(x).len() > 0 {
        assert(trim(x)[0] == y.take(trim(x).len() as int)[0]);
    }
}

/// A text that starts and ends with a character that is not a blank is
/// its own trimming.
proof fn lemma_trim_fixed(s: Seq<char>)
    requires
        s.len() > 0,
        !is_white_space(s[0]),
        !is_white_space(s.last()),
    ensures
        trim(s) == s,
{
}

proof fn lemma_decimal_digits(n: nat)
    ensures
        !decimal(n).contains('/'),
    decreases n,
{
    if n >= 10 {
        lemma_decimal_digits(n / 10);
        let d = decimal(n);
        assert forall|k: int| 0 <= k < d.len() implies d[k] != '/' by {
            if k < d.len() - 1 {
                assert(d[k] == decimal(n / 10)[k]);
            }
        }
    } else {
        assert(decimal(n)[0] != '/');
    }
}

proof fn lemma_concat_clean(a: Seq<char>, b: Seq<char>)
    requires
        !a.contains('/'),
        !b.contains('/'),
    ensures
        !(a + b).contains('/'),
{
    assert forall|k: int| 0 <= k < (a + b).len() implies (a + b)[k] != '/' by {
        if k < a.len() {
            assert((a + b)[k] == a[k]);
        } else {
            assert((a + b)[k] == b[k - a.len()]);
        }
    }
}

proof fn lemma_lit_clean(a: Seq<char>)
    requires
        forall|k: int| 0 <= k < a.len() ==> a[k] != '/',
    ensures
        !a.contains('/'),
{
}

/// What `safe_name` gives holds no `/` and is neither empty, `.` nor `..`.
proof fn lemma_safe_name_clean(typed: Seq<char>)
    ensures
        safe_name(typed) matches Some(n) ==> !n.contains('/') && n.len() > 0 && n != seq!['.']
            && n != seq!['.', '.'],
{
    lemma_file_name_clean(trim(typed));
    if let Some(f) = path_file_name(trim(typed)) {
        lemma_trim_within(f);
        let m = trim(f);
        assert(!m.contains('/')) by {
            if m.contains('/') {
                assert(f.contains('/'));
            }
        }
        lemma_lit_clean(mp4_ext());
        lemma_concat_clean(m, mp4_ext());
    }
}

proof fn lemma_after_last_slash_suffix(a: Seq<char>, b: Seq<char>)
    requires
        !b.contains('/'),
        a.len() == 0 || a.last() == '/',
    ensures
        after_last_slash(a + b) == b,
    decreases b.len(),
{
    if b.len() == 0 {
        assert(a + b =~= a);
    } else {
        let init = b.drop_last();
        assert(!init.contains('/')) by {
            if init.contains('/') {
                let k = choose|k: int| 0 <= k < init.len() && init[k] == '/';
                assert(b[k] == '/');
            }
        }
        lemma_after_last_slash_suffix(a, init);
        assert((a + b).drop_last() =~= a + init);
        assert((a + b).last() == b.last());
        assert(b.last() != '/') by {
            if b.last() == '/' {
                assert(b[b.len() - 1] == '/');
            }
        }
        assert(init.push(b.last()) =~= b);
    }
}

/// Law: the MP4 always lands in the folder of the original. The name joined
/// onto that folder is a single component (no `/`, neither `.` nor `..`),
/// so whatever was typed, the file name of the output path is that name.
pub proof fn law_output_stays_in_folder(input: Seq<char>, typed: Option<Seq<char>>, attempt: nat)
    ensures
        ({
            let name = output_name(input, typed, attempt);
            &&& !name.contains('/')
            &&& name.len() > 0
            &&& name != seq!['.']
            &&& name != seq!['.', '.']
            &&& output_candidate(input, typed, attempt) == path_join(folder_of(input), name)
            &&& path_file_name(output_candidate(input, typed, attempt)) == Some(name)
        }),
{
    let chosen = chosen_name(input, typed);
    lemma_lit_clean(mp4_ext());
    lemma_lit_clean(video_stem());
    lemma_file_stem_clean(input);
    if let Some(t) = typed {
        lemma_safe_name_clean(t);
    }
    if let Some(stem) = path_file_stem(input) {
        lemma_concat_clean(stem, mp4_ext());
    }
    lemma_concat_clean(video_stem(), mp4_ext());
    assert(!chosen.contains('/'));
    let name = output_name(input, typed, attempt);
    if attempt > 1 {
        lemma_file_stem_clean(chosen);
        let st = stem_of(chosen);
        assert(!st.contains('/'));
        lemma_decimal_digits(attempt);
        lemma_lit_clean(seq![' ', '(']);
        lemma_lit_clean(seq![')']);
        lemma_concat_clean(st, seq![' ', '(']);
        lemma_concat_clean(st + seq![' ', '('], decimal(attempt));
        lemma_concat_clean(st + seq![' ', '('] + decimal(attempt), seq![')']);
        lemma_concat_clean(st + seq![' ', '('] + decimal(attempt) + seq![')'], mp4_ext());
    }
    assert(!name.contains('/'));
    assert(name.len() > 0 && name != seq!['.'] && name != seq!['.', '.']) by {
        if name.len() > 0 && name[name.len() - 1] == '4' {
            assert(seq!['.'][0] != '4');
            assert(seq!['.', '.'][1] != '4');
        }
    }
    let dir = folder_of(input);
    assert(name.len() == 0 || name[0] != '/');
    let joined = path_join(dir, name);
    if dir.len() == 0 || dir.last() == '/' {
        lemma_after_last_slash_suffix(dir, name);
    } else {
        let d2 = dir + seq!['/'];
        assert(joined =~= d2 + name);
        lemma_after_last_slash_suffix(d2, name);
    }
}

/// A name that cleaning produced, and whose lowercase form ends in `.mp4`,
/// comes through a second cleaning unchanged.
proof fn lemma_safe_name_stable(typed: Seq<char>)
    requires
        safe_name(typed) is Some,
        is_ascii_text(safe_name(typed)->0) || ends_with(folded(safe_name(typed)->0), mp4_ext()),
    ensures
        safe_name(safe_name(typed)->0) == safe_name(typed),
{
    let n = safe_name(typed)->0;
    lemma_safe_name_clean(typed);
    let f = path_file_name(trim(typed))->0;
    let m = trim(f);
    lemma_trim_ends(f);
    assert(!is_white_space('4'));
    lemma_trim_fixed(n);
    lemma_file_name_of_component(n);
    if !ends_with(folded(n), mp4_ext()) {
        assert(is_ascii_text(n));
        let l = ascii_lower(n);
        assert(l.subrange(l.len() - 4, l.len() as int) =~= mp4_ext()) by {
            assert(n == m + mp4_ext());
            assert forall|k: int| 0 <= k < 4 implies l[l.len() - 4 + k] == mp4_ext()[k] by {
                assert(n[n.len() - 4 + k] == mp4_ext()[k]);
                assert(ascii_lower_char(mp4_ext()[k]) == mp4_ext()[k]);
            }
        }
    }
}


proof fn lemma_split_last_slash(q: Seq<char>)
    ensures
        before_last_slash(q) matches Some(r) ==> r.len() < q.len() && q[r.len() as int] == '/'
            && r == q.take(r.len() as int) && after_last_slash(q) == q.skip(r.len() as int + 1),
        before_last_slash(q) is None ==> !q.contains('/') && after_last_slash(q) == q,
    decreases q.len(),
{
    if q.len() == 0 {
    } else if q.last() == '/' {
        assert(q.drop_last() =~= q.take(q.len() - 1));
        assert(q.skip(q.len() as int) =~= Seq::<char>::empty());
    } else {
        let init = q.drop_last();
        lemma_split_last_slash(init);
        match before_last_slash(init) {
            Some(r) => {
                assert(init.take(r.len() as int) =~= q.take(r.len() as int));
                assert(init.skip(r.len() as int + 1).push(q.last()) =~= q.skip(r.len() as int + 1));
            },
            None => {
                assert(init.push(q.last()) =~= q);
                assert(!q.contains('/')) by {
                    if q.contains('/') {
                        let k = choose|k: int| 0 <= k < q.len() && q[k] == '/';
                        if k < init.len() {
                            assert(init[k] == '/');
                        }
                    }
                }
            },
        }
    }
}

/// `p` is `s` itself, or `s` cut just before one of its separators, or
/// `s` cut where its body starts.
pub open spec fn cut_of(s: Seq<char>, p: Seq<char>, start: int) -> bool {
    &&& start <= p.len() <= s.len()
    &&& p == s.take(p.len() as int)
    &&& (p.len() == s.len() || p.len() == start || s[p.len() as int] == '/')
}

/// `p` ends with a real component: it is no longer than its root or leading
/// `.`, or its last body segment is neither empty nor `.`.
pub open spec fn ends_clean(p: Seq<char>, start: int) -> bool {
    p.len() <= start || {
        let seg = after_last_slash(p.skip(start));
        seg.len() > 0 && seg != seq!['.']
    }
}

proof fn lemma_cut_segment(s: Seq<char>, p: Seq<char>, start: int)
    requires
        0 <= start,
        cut_of(s, p, start),
        p.len() > start,
    ensures
        cut_of(s, cut_segment(p, start), start),
        cut_segment(p, start).len() < p.len(),
{
    let q = p.skip(start);
    lemma_split_last_slash(q);
    match before_last_slash(q) {
        Some(r) => {
            let c = p.take(start) + r;
            assert(c =~= s.take(start + r.len()));
            assert(q[r.len() as int] == p[start + r.len()]);
        },
        None => {
            assert(p.take(start) =~= s.take(start));
        },
    }
}

proof fn lemma_trim_back(s: Seq<char>, p: Seq<char>, start: int)
    requires
        0 <= start,
        cut_of(s, p, start),
    ensures
        cut_of(s, trim_back(p, start), start),
        trim_back(p, start).len() <= p.len(),
        ends_clean(trim_back(p, start), start),
    decreases p.len(),
{
    if p.len() > start {
        let c = cut_segment(p, start);
        lemma_cut_segment(s, p, start);
        let seg = after_last_slash(p.skip(start));
        if seg.len() == 0 || seg == seq!['.'] {
            lemma_trim_back(s, c, start);
        }
    }
}

proof fn lemma_parent_from(s: Seq<char>, p: Seq<char>)
    requires
        cut_of(s, p, body_start(s)),
    ensures
        parent_from(p, body_start(s), has_root(s), starts_cur_dir(s)) matches Some(t) ==> t.len()
            == 0 || (cut_of(s, t, body_start(s)) && t.len() < s.len() && ends_clean(
            t,
            body_start(s),
        )),
    decreases p.len(),
{
    let start = body_start(s);
    if p.len() > start {
        let c = cut_segment(p, start);
        lemma_cut_segment(s, p, start);
        let seg = after_last_slash(p.skip(start));
        if seg.len() == 0 || seg == seq!['.'] {
            lemma_parent_from(s, c);
        } else {
            lemma_trim_back(s, c, start);
        }
    }
}

/// A folder that is its own trimming: no trailing separator or `.`
/// segment past its root or leading `.`.
pub open spec fn clean_folder(d: Seq<char>) -> bool {
    ends_clean(d, body_start(d))
}

proof fn lemma_cut_keeps_start(s: Seq<char>, t: Seq<char>)
    requires
        cut_of(s, t, body_start(s)),
        t.len() < s.len(),
    ensures
        body_start(t) == body_start(s),
{
    let k = t.len() as int;
    if k > 0 {
        assert(t[0] == s[0]);
    }
    if k > 1 {
        assert(t[1] == s[1]);
    }
}

/// Every folder that `Path::parent` gives, and `.`, is clean.
proof fn lemma_folder_clean(input: Seq<char>)
    ensures
        clean_folder(folder_of(input)),
{
    assert(input.take(input.len() as int) =~= input);
    lemma_parent_from(input, input);
    match path_parent(input) {
        Some(t) => {
            if t.len() > 0 {
                lemma_cut_keeps_start(input, t);
            }
        },
        None => {},
    }
}

/// `a`, a `/`, then `b`, which holds no `/`: the last `/` is the one added.
proof fn lemma_split_at_added_slash(a: Seq<char>, b: Seq<char>)
    requires
        !b.contains('/'),
    ensures
        before_last_slash(a + seq!['/'] + b) == Some(a),
        after_last_slash(a + seq!['/'] + b) == b,
{
    let q = a + seq!['/'] + b;
    lemma_split_last_slash(q);
    lemma_after_last_slash_suffix(a + seq!['/'], b);
    match before_last_slash(q) {
        Some(r) => {
            if r.len() > a.len() {
                assert(q[r.len() as int] == b[r.len() - a.len() - 1]);
            } else if r.len() < a.len() {
                assert(q.skip(r.len() as int + 1).len() > b.len());
            }
            assert(r =~= a);
        },
        None => {
            assert(q[a.len() as int] == '/');
        },
    }
}

/// Law: the output's folder is the original's: the parent of every
/// candidate path is the folder of `input` (`.` when it has none).
pub proof fn law_output_parent_is_source_folder(
    input: Seq<char>,
    typed: Option<Seq<char>>,
    attempt: nat,
)
    ensures
        path_parent(output_candidate(input, typed, attempt)) == Some(folder_of(input)),
{
    law_output_stays_in_folder(input, typed, attempt);
    lemma_folder_clean(input);
    let d = folder_of(input);
    let name = output_name(input, typed, attempt);
    let joined = output_candidate(input, typed, attempt);
    lemma_split_last_slash(name);
    assert(name[0] != '/') by {
        if name[0] == '/' {
            assert(name.contains('/'));
        }
    }
    if d.len() == 0 {
        assert(joined == name);
        assert(!starts_cur_dir(name)) by {
            if name.len() > 1 && name[1] == '/' {
                assert(name.contains('/'));
            }
        }
        assert(name.skip(0) =~= name);
        assert(cut_segment(name, 0) =~= Seq::<char>::empty());
    } else if d.last() == '/' {
        let start = body_start(d);
        if d.len() > start {
            lemma_split_last_slash(d.skip(start));
            assert(d.skip(start).last() == '/');
        }
        assert(d.len() == 1 && d[0] == '/');
        assert(d =~= seq!['/']);
        assert(joined =~= seq!['/'] + name);
        assert(joined.skip(1) =~= name);
        assert(cut_segment(joined, 1) =~= seq!['/']);
    } else {
        let start = body_start(d);
        assert(joined == d + seq!['/'] + name);
        assert(body_start(joined) == start) by {
            assert(joined[0] == d[0]);
            if d.len() > 1 {
                assert(joined[1] == d[1]);
            } else {
                assert(joined[1] == '/');
            }
        }
        let q = joined.skip(start);
        assert(q =~= d.skip(start) + seq!['/'] + name);
        lemma_split_at_added_slash(d.skip(start), name);
        assert(cut_segment(joined, start) =~= d);
        assert(d.take(start) + d.skip(start) =~= d);
    }
}

} // verus!
