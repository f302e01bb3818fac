//! Clean-up of subtitles that ffmpeg converted from ASS to SRT.
//!
//! ffmpeg carries ASS styling into SRT as `<font ...>` tags, which many TVs
//! draw literally or at a huge size, and leaves ASS override blocks such as
//! `{\an8}` in the text. Only italic, bold and underline survive: every tag
//! other than `<i>`, `<b>` and `<u>` (opening or closing) goes, and so does
//! every override block. A `<` that does not open a tag, as in `5 < 7`, is
//! text and stays.

use vstd::prelude::*;
use crate::text::{
    find_char, first_at, lemma_first_at_unique, position,
    ascii_lower, ascii_lower_char, chars_eq, chars_of, folded, is_ascii_text, is_blank,
    is_white_space, lowercased, slice_chars, string_of,
    trim_start,
};

verus! {

/// `s` without its leading `/` characters.
pub open spec fn drop_leading_slashes(s: Seq<char>) -> Seq<char>
    decreases s.len(),
{
    if s.len() > 0 && s[0] == '/' {
        drop_leading_slashes(s.drop_first())
    } else {
        s
    }
}

/// The longest prefix of `s` that holds no blank.
pub open spec fn leading_word(s: Seq<char>) -> Seq<char>
    decreases s.len(),
{
    if s.len() > 0 && !is_white_space(s[0]) {
        seq![s[0]] + leading_word(s.drop_first())
    } else {
        Seq::empty()
    }
}

/// The first blank-separated word of `s`, or nothing when `s` is all blanks.
pub open spec fn first_word(s: Seq<char>) -> Seq<char> {
    leading_word(trim_start(s))
}

/// The first word of the text between `<` and `>`, after the `/` of a
/// closing tag: `"/ font size=3"` gives `font`.
pub open spec fn tag_word(inner: Seq<char>) -> Seq<char> {
    first_word(drop_leading_slashes(inner))
}

/// The name of the tag whose text between `<` and `>` is `inner`, lowercased:
/// `"/FONT"` and `"font size=\"71\""` both name `font`.
pub open spec fn tag_name(inner: Seq<char>) -> Seq<char> {
    folded(tag_word(inner))
}

/// An ASCII letter.
pub open spec fn is_ascii_letter(c: char) -> bool {
    (65 <= (c as u32) <= 90) || (97 <= (c as u32) <= 122)
}

/// The text between `<` and `>` is a tag: right after the `<`, or the `/`
/// of a closing tag, comes a letter. `< 7 and the result >` is not one, nor
/// is `< y >`.
pub open spec fn is_tag(inner: Seq<char>) -> bool {
    let t = drop_leading_slashes(inner);
    t.len() > 0 && is_ascii_letter(t[0])
}

/// `font`
pub open spec fn font_name() -> Seq<char> {
    seq!['f', 'o', 'n', 't']
}

/// The tag names that survive: italic, bold and underline.
pub open spec fn is_emphasis(name: Seq<char>) -> bool {
    name == seq!['i'] || name == seq!['b'] || name == seq!['u']
}

/// The text between `<` and `>` is a styling tag to remove: a font tag,
/// however spaced (`</ font >` too), or any other tag than `<i>`, `<b>` and
/// `<u>`.
pub open spec fn is_styling_tag(inner: Seq<char>) -> bool {
    tag_name(inner) == font_name() || (is_tag(inner) && !is_emphasis(tag_name(inner)))
}

/// `s` starts an ASS override block, `{\`.
pub open spec fn starts_override(s: Seq<char>) -> bool {
    s.len() > 1 && s[0] == '{' && s[1] == '\\'
}

/// The subtitle text `s` with every styling tag and every ASS override block
/// taken out, read from left to right:
/// - a `<` whose next `>` closes a styling tag drops everything up to that
///   `>`;
/// - a `{\` with a `}` after it drops everything up to that `}`;
/// - any other character is kept.
pub open spec fn stripped(s: Seq<char>) -> Seq<char>
    decreases s.len(),
{
    if s.len() == 0 {
        Seq::empty()
    } else if s[0] == '<' && position(s, '>') is Some && is_styling_tag(
        s.subrange(1, position(s, '>')->0),
    ) {
        stripped(s.skip(position(s, '>')->0 + 1))
    } else if starts_override(s) && position(s, '}') is Some {
        stripped(s.skip(position(s, '}')->0 + 1))
    } else {
        seq![s[0]] + stripped(s.skip(1))
    }
}

proof fn lemma_drop_slashes(s: Seq<char>, k: int)
    requires
        0 <= k <= s.len(),
        forall|i: int| 0 <= i < k ==> s[i] == '/',
        k == s.len() || s[k] != '/',
    ensures
        drop_leading_slashes(s) == s.skip(k),
    decreases k,
{
    if k == 0 {
        assert(s.skip(0) =~= s);
    } else {
        lemma_drop_slashes(s.drop_first(), k - 1);
        assert(s.drop_first().skip(k - 1) =~= s.skip(k));
    }
}

proof fn lemma_trim_start_run(s: Seq<char>, k: int)
    requires
        0 <= k <= s.len(),
        forall|i: int| 0 <= i < k ==> is_white_space(s[i]),
        k == s.len() || !is_white_space(s[k]),
    ensures
        trim_start(s) == s.skip(k),
    decreases k,
{
    if k == 0 {
        assert(s.skip(0) =~= s);
    } else {
        lemma_trim_start_run(s.drop_first(), k - 1);
        assert(s.drop_first().skip(k - 1) =~= s.skip(k));
    }
}

proof fn lemma_leading_word_run(s: Seq<char>, k: int)
    requires
        0 <= k <= s.len(),
        forall|i: int| 0 <= i < k ==> !is_white_space(s[i]),
        k == s.len() || is_white_space(s[k]),
    ensures
        leading_word(s) == s.take(k),
    decreases k,
{
    if k == 0 {
        assert(s.take(0) =~= Seq::<char>::empty());
    } else {
        lemma_leading_word_run(s.drop_first(), k - 1);
        assert(seq![s[0]] + s.drop_first().take(k - 1) =~= s.take(k));
    }
}

fn is_letter(c: char) -> (r: bool)
    ensures
        r == is_ascii_letter(c),
{
    let u = c as u32;
    (65 <= u && u <= 90) || (97 <= u && u <= 122)
}

/// Whether the characters of `v` from `lo` up to `hi` are the inside of a
/// styling tag.
fn styling_tag_between(v: &Vec<char>, lo: usize, hi: usize) -> (r: bool)
    requires
        lo <= hi <= v.len(),
    ensures
        r == is_styling_tag(v@.subrange(lo as int, hi as int)),
{
    let ghost inner = v@.subrange(lo as int, hi as int);
    let mut a = lo;
    while a < hi && v[a] == '/'
        invariant
            lo <= a <= hi <= v.len(),
            forall|i: int| lo <= i < a ==> v@[i] == '/',
        decreases hi - a,
    {
        a += 1;
    }
    proof {
        lemma_drop_slashes(inner, a - lo);
        assert(inner.skip(a - lo) =~= v@.subrange(a as int, hi as int));
    }
    let strict = a < hi && is_letter(v[a]);
    let mut b = a;
    while b < hi && is_blank(v[b])
        invariant
            a <= b <= hi <= v.len(),
            forall|i: int| a <= i < b ==> is_white_space(v@[i]),
        decreases hi - b,
    {
        b += 1;
    }
    proof {
        let s = v@.subrange(a as int, hi as int);
        lemma_trim_start_run(s, b - a);
        assert(s.skip(b - a) =~= v@.subrange(b as int, hi as int));
    }
    let mut c = b;
    while c < hi && !is_blank(v[c])
        invariant
            b <= c <= hi <= v.len(),
            forall|i: int| b <= i < c ==> !is_white_space(v@[i]),
        decreases hi - c,
    {
        c += 1;
    }
    proof {
        let s = v@.subrange(b as int, hi as int);
        lemma_leading_word_run(s, c - b);
        assert(s.take(c - b) =~= v@.subrange(b as int, c as int));
    }
    let word = string_of(&slice_chars(v, b, c));
    let lower = lowercased(word.as_str());
    let name = chars_of(lower.as_str());
    let italic = vec!['i'];
    let bold = vec!['b'];
    let underline = vec!['u'];
    assert(italic@ =~= seq!['i']);
    assert(bold@ =~= seq!['b']);
    assert(underline@ =~= seq!['u']);
    let font = vec!['f', 'o', 'n', 't'];
    assert(font@ =~= font_name());
    let emphasis = chars_eq(&name, &italic) || chars_eq(&name, &bold) || chars_eq(
        &name,
        &underline,
    );
    chars_eq(&name, &font) || (strict && !emphasis)
}

/// Removes the styling tags and ASS override blocks from a subtitle text:
/// only `<i>`, `<b>` and `<u>` survive, and every character that is not part
/// of a removed tag or block stays where it was.
pub fn strip_styling(text: &str) -> (r: String)
    ensures
        r@ == stripped(text@),
{
    let chars = chars_of(text);
    let n = chars.len();
    let mut out: Vec<char> = Vec::new();
    let mut i: usize = 0;
    assert(chars@.skip(0) =~= chars@);
    while i < n
        invariant
            n == chars.len(),
            i <= n,
            chars@ == text@,
            out@ + stripped(chars@.skip(i as int)) == stripped(chars@),
        decreases n - i,
    {
        let ghost t = chars@.skip(i as int);
        let c = chars[i];
        let mut jump: Option<usize> = None;
        if c == '<' {
            match find_char(&chars, i, '>') {
                Some(end) => {
                    if styling_tag_between(&chars, i + 1, end) {
                        jump = Some(end + 1);
                    }
                    assert(t.subrange(1, end - i) =~= chars@.subrange(i + 1, end as int));
                },
                None => {},
            }
        } else if c == '{' && i + 1 < n && chars[i + 1] == '\\' {
            match find_char(&chars, i, '}') {
                Some(end) => {
                    jump = Some(end + 1);
                },
                None => {},
            }
        }
        match jump {
            Some(next) => {
                assert(t.skip(next - i) =~= chars@.skip(next as int));
                i = next;
            },
            None => {
                let ghost before = out@;
                assert(stripped(t) == seq![c] + stripped(t.skip(1)));
                out.push(c);
                assert(t.skip(1) =~= chars@.skip(i + 1));
                assert(out@ + stripped(chars@.skip(i + 1)) =~= before + stripped(t));
                i += 1;
            },
        }
    }
    string_of(&out)
}


/// `s` holds neither `<` nor `{`, the two characters that can start styling.
pub open spec fn plain(s: Seq<char>) -> bool {
    forall|i: int| 0 <= i < s.len() ==> s[i] != '<' && s[i] != '{'
}

/// Law: plain text in front of the rest of a subtitle comes out untouched,
/// and the rest is cleaned as if it stood alone.
pub proof fn law_plain_prefix_kept(a: Seq<char>, b: Seq<char>)
    requires
        plain(a),
    ensures
        stripped(a + b) == a + stripped(b),
    decreases a.len(),
{
    if a.len() == 0 {
        assert(a + b =~= b);
        assert(a + stripped(b) =~= stripped(b));
    } else {
        let s = a + b;
        assert(s[0] == a[0]);
        assert(s.skip(1) =~= a.skip(1) + b);
        law_plain_prefix_kept(a.skip(1), b);
        assert(seq![a[0]] + (a.skip(1) + stripped(b)) =~= a + stripped(b));
    }
}

/// `s` holds no `<` and no `{\`, so nothing in it can start styling.
pub open spec fn no_markup(s: Seq<char>) -> bool {
    forall|i: int|
        0 <= i < s.len() ==> #[trigger] s[i] != '<' && !(s[i] == '{' && i + 1 < s.len() && s[i
            + 1] == '\\')
}

/// Law: a subtitle with no `<` and no `{\` is left exactly as it was.
pub proof fn law_plain_text_unchanged(s: Seq<char>)
    requires
        no_markup(s),
    ensures
        stripped(s) == s,
    decreases s.len(),
{
    if s.len() > 0 {
        assert(!starts_override(s));
        let rest = s.skip(1);
        assert(no_markup(rest)) by {
            assert forall|i: int| 0 <= i < rest.len() implies #[trigger] rest[i] != '<' && !(rest[i]
                == '{' && i + 1 < rest.len() && rest[i + 1] == '\\') by {
                assert(rest[i] == s[i + 1]);
                if i + 1 < rest.len() {
                    assert(rest[i + 1] == s[i + 2]);
                }
            }
        }
        law_plain_text_unchanged(rest);
        assert(seq![s[0]] + rest =~= s);
    }
}

/// Law: cleaning only ever removes characters; it never adds one or makes
/// the text longer.
pub proof fn law_only_removes(s: Seq<char>)
    ensures
        stripped(s).len() <= s.len(),
        forall|c: char| stripped(s).contains(c) ==> s.contains(c),
    decreases s.len(),
{
    if s.len() == 0 {
    } else if s[0] == '<' && position(s, '>') is Some && is_styling_tag(
        s.subrange(1, position(s, '>')->0),
    ) {
        let j = position(s, '>')->0;
        law_only_removes(s.skip(j + 1));
        assert forall|c: char| stripped(s).contains(c) implies s.contains(c) by {
            let out = stripped(s);
            let k = choose|k: int| 0 <= k < out.len() && out[k] == c;
            let r = s.skip(j + 1);
            assert(r.contains(c));
            let m = choose|m: int| 0 <= m < r.len() && r[m] == c;
            assert(s[j + 1 + m] == c);
        }
    } else if starts_override(s) && position(s, '}') is Some {
        let j = position(s, '}')->0;
        law_only_removes(s.skip(j + 1));
        assert forall|c: char| stripped(s).contains(c) implies s.contains(c) by {
            let out = stripped(s);
            let k = choose|k: int| 0 <= k < out.len() && out[k] == c;
            let r = s.skip(j + 1);
            assert(r.contains(c));
            let m = choose|m: int| 0 <= m < r.len() && r[m] == c;
            assert(s[j + 1 + m] == c);
        }
    } else {
        law_only_removes(s.skip(1));
        assert forall|c: char| stripped(s).contains(c) implies s.contains(c) by {
            let out = stripped(s);
            let k = choose|k: int| 0 <= k < out.len() && out[k] == c;
            if k == 0 {
                assert(s[0] == c);
            } else {
                assert(stripped(s.skip(1))[k - 1] == c);
                let r = s.skip(1);
                assert(r.contains(c));
                let m = choose|m: int| 0 <= m < r.len() && r[m] == c;
                assert(s[1 + m] == c);
            }
        }
    }
}

/// Law: a styling tag, such as `<font ...>` or `</font>`, disappears
/// together with its attributes, and the text after it is cleaned as if it
/// stood alone.
pub proof fn law_styling_tag_removed(inner: Seq<char>, rest: Seq<char>)
    requires
        !inner.contains('>'),
        is_styling_tag(inner),
    ensures
        stripped(seq!['<'] + inner + seq!['>'] + rest) == stripped(rest),
{
    let s = seq!['<'] + inner + seq!['>'] + rest;
    let j: int = inner.len() as int + 1;
    assert forall|k: int| 0 <= k < j implies s[k] != '>' by {
        if k > 0 {
            assert(s[k] == inner[k - 1]);
        }
    }
    assert(first_at(s, '>', j));
    lemma_first_at_unique(s, '>', j);
    assert(s.subrange(1, j) =~= inner);
    assert(s.skip(j + 1) =~= rest);
}

/// Law: an ASS override block such as `{\an8}` disappears, and the text
/// after it is cleaned as if it stood alone.
pub proof fn law_override_removed(body: Seq<char>, rest: Seq<char>)
    requires
        !body.contains('}'),
    ensures
        stripped(seq!['{', '\\'] + body + seq!['}'] + rest) == stripped(rest),
{
    let s = seq!['{', '\\'] + body + seq!['}'] + rest;
    let j: int = body.len() as int + 2;
    assert forall|k: int| 0 <= k < j implies s[k] != '}' by {
        if k > 1 {
            assert(s[k] == body[k - 2]);
        }
    }
    assert(first_at(s, '}', j));
    lemma_first_at_unique(s, '}', j);
    assert(starts_override(s));
    assert(s.skip(j + 1) =~= rest);
}

/// Law: a pair of angle brackets that holds no styling tag, such as `<i>`,
/// `</b>` or the `< 7 and the result >` of `5 < 7 and the result > 0`, is
/// kept as it was written.
pub proof fn law_non_styling_brackets_kept(inner: Seq<char>, rest: Seq<char>)
    requires
        plain(inner),
        !inner.contains('>'),
        !is_styling_tag(inner),
    ensures
        stripped(seq!['<'] + inner + seq!['>'] + rest) == seq!['<'] + inner + seq!['>']
            + stripped(rest),
{
    let s = seq!['<'] + inner + seq!['>'] + rest;
    let j: int = inner.len() as int + 1;
    assert forall|k: int| 0 <= k < j implies s[k] != '>' by {
        if k > 0 {
            assert(s[k] == inner[k - 1]);
        }
    }
    assert(first_at(s, '>', j));
    lemma_first_at_unique(s, '>', j);
    assert(s.subrange(1, j) =~= inner);
    assert(!starts_override(s));
    let tail = inner + seq!['>'];
    assert(plain(tail));
    assert(s.skip(1) =~= tail + rest);
    law_plain_prefix_kept(tail, rest);
    assert(seq!['<'] + (tail + stripped(rest)) =~= seq!['<'] + inner + seq!['>'] + stripped(
        rest,
    ));
}


/// `c` names one of the tags that survive, in either case.
pub open spec fn emphasis_letter(c: char) -> bool {
    c == 'i' || c == 'b' || c == 'u' || c == 'I' || c == 'B' || c == 'U'
}

proof fn lemma_emphasis_not_styling(inner: Seq<char>, c: char)
    requires
        emphasis_letter(c),
        inner == seq![c] || inner == seq!['/', c],
    ensures
        !is_styling_tag(inner),
        plain(inner),
        !inner.contains('>'),
{
    let word = seq![c];
    assert(drop_leading_slashes(word) == word);
    if inner == seq!['/', c] {
        assert(inner.drop_first() =~= word);
    }
    assert(drop_leading_slashes(inner) == word);
    assert(!is_white_space(c));
    assert(trim_start(word) == word);
    assert(word.drop_first() =~= Seq::<char>::empty());
    assert(leading_word(word.drop_first()) =~= Seq::<char>::empty());
    assert(leading_word(word) =~= word);
    assert(is_ascii_text(word));
    assert(ascii_lower(word) =~= seq![ascii_lower_char(c)]);
    assert(is_emphasis(tag_name(inner)));
    assert forall|k: int| 0 <= k < inner.len() implies inner[k] != '>' by {}
}

/// Law: `<i>`, `<b>` and `<u>`, opening or closing, in either case, survive
/// cleaning as they were written.
pub proof fn law_emphasis_kept(c: char, closing: bool, rest: Seq<char>)
    requires
        emphasis_letter(c),
    ensures
        ({
            let inner = if closing {
                seq!['/', c]
            } else {
                seq![c]
            };
            stripped(seq!['<'] + inner + seq!['>'] + rest) == seq!['<'] + inner + seq!['>']
                + stripped(rest)
        }),
{
    let inner = if closing {
        seq!['/', c]
    } else {
        seq![c]
    };
    lemma_emphasis_not_styling(inner, c);
    law_non_styling_brackets_kept(inner, rest);
}


/// The characters of `s` whose flag in `keep` is set, in order.
pub open spec fn select(s: Seq<char>, keep: Seq<bool>) -> Seq<char>
    decreases s.len(),
{
    if s.len() == 0 || keep.len() == 0 {
        Seq::empty()
    } else {
        (if keep[0] {
            seq![s[0]]
        } else {
            Seq::empty()
        }) + select(s.drop_first(), keep.drop_first())
    }
}

/// Which characters of `s` cleaning keeps.
pub open spec fn kept_positions(s: Seq<char>) -> Seq<bool>
    decreases s.len(),
{
    if s.len() == 0 {
        Seq::empty()
    } else if s[0] == '<' && position(s, '>') is Some && is_styling_tag(
        s.subrange(1, position(s, '>')->0),
    ) {
        Seq::new((position(s, '>')->0 + 1) as nat, |i: int| false) + kept_positions(
            s.skip(position(s, '>')->0 + 1),
        )
    } else if starts_override(s) && position(s, '}') is Some {
        Seq::new((position(s, '}')->0 + 1) as nat, |i: int| false) + kept_positions(
            s.skip(position(s, '}')->0 + 1),
        )
    } else {
        seq![true] + kept_positions(s.skip(1))
    }
}

proof fn lemma_select_skip(s: Seq<char>, keep: Seq<bool>, k: int)
    requires
        0 <= k <= s.len(),
        k <= keep.len(),
        forall|i: int| 0 <= i < k ==> !keep[i],
    ensures
        select(s, keep) == select(s.skip(k), keep.skip(k)),
    decreases k,
{
    if k == 0 {
        assert(s.skip(0) =~= s);
        assert(keep.skip(0) =~= keep);
    } else {
        assert(select(s, keep) =~= select(s.drop_first(), keep.drop_first()));
        lemma_select_skip(s.drop_first(), keep.drop_first(), k - 1);
        assert(s.drop_first().skip(k - 1) =~= s.skip(k));
        assert(keep.drop_first().skip(k - 1) =~= keep.skip(k));
    }
}

/// Law: cleaning deletes characters and nothing else: what it keeps comes
/// out in the order it had, with one flag per character of the text saying
/// whether it was kept.
pub proof fn law_keeps_order(s: Seq<char>)
    ensures
        kept_positions(s).len() == s.len(),
        stripped(s) == select(s, kept_positions(s)),
    decreases s.len(),
{
    if s.len() == 0 {
    } else if s[0] == '<' && position(s, '>') is Some && is_styling_tag(
        s.subrange(1, position(s, '>')->0),
    ) {
        let j = position(s, '>')->0;
        let rest = s.skip(j + 1);
        law_keeps_order(rest);
        let m = kept_positions(s);
        let skipped = Seq::new((j + 1) as nat, |i: int| false);
        assert(m == skipped + kept_positions(rest));
        lemma_select_skip(s, m, j + 1);
        assert(m.skip(j + 1) =~= kept_positions(rest));
    } else if starts_override(s) && position(s, '}') is Some {
        let j = position(s, '}')->0;
        let rest = s.skip(j + 1);
        law_keeps_order(rest);
        let m = kept_positions(s);
        let skipped = Seq::new((j + 1) as nat, |i: int| false);
        assert(m == skipped + kept_positions(rest));
        lemma_select_skip(s, m, j + 1);
        assert(m.skip(j + 1) =~= kept_positions(rest));
    } else {
        law_keeps_order(s.skip(1));
        let m = kept_positions(s);
        assert(m.drop_first() =~= kept_positions(s.skip(1)));
        assert(s.drop_first() =~= s.skip(1));
    }
}

} // verus!
