//! Greedy word wrapping and box framing over character sequences.

use vstd::prelude::*;

verus! {

/// The words of `s`: the pieces between single spaces, empty pieces kept.
pub open spec fn split_words(s: Seq<char>) -> Seq<Seq<char>>
    decreases s.len(),
{
    if s.len() == 0 {
        seq![Seq::<char>::empty()]
    } else {
        let pre = split_words(s.drop_last());
        if s.last() == ' ' {
            pre.push(Seq::<char>::empty())
        } else {
            pre.update(pre.len() - 1, pre.last().push(s.last()))
        }
    }
}

pub proof fn lemma_split_words_nonempty(s: Seq<char>)
    ensures
        split_words(s).len() >= 1,
    decreases s.len(),
{
    if s.len() > 0 {
        lemma_split_words_nonempty(s.drop_last());
    }
}

/// The columns that `word` needs after the open line `cur`: a separating
/// space is counted only where the open line holds something.
pub open spec fn needed(cur: Seq<char>, word: Seq<char>) -> nat {
    if cur.len() == 0 {
        word.len()
    } else {
        cur.len() + 1 + word.len()
    }
}

/// One greedy step: place `word` after the open line `cur`, or close the
/// open line first when the word does not fit.  A word that does not fit on
/// an empty line becomes a line of its own.
pub open spec fn pack_word(lines: Seq<Seq<char>>, cur: Seq<char>, word: Seq<char>, width: nat) -> (
    Seq<Seq<char>>,
    Seq<char>,
) {
    if needed(cur, word) > width {
        if cur.len() == 0 {
            (lines.push(word), cur)
        } else {
            (lines.push(cur), word)
        }
    } else if cur.len() == 0 {
        (lines, word)
    } else {
        (lines, cur + seq![' '] + word)
    }
}

/// Greedy packing of `words`, left to right: the closed lines and the open line.
pub open spec fn pack_words(words: Seq<Seq<char>>, width: nat) -> (Seq<Seq<char>>, Seq<char>)
    decreases words.len(),
{
    if words.len() == 0 {
        (Seq::empty(), Seq::empty())
    } else {
        let st = pack_words(words.drop_last(), width);
        pack_word(st.0, st.1, words.last(), width)
    }
}

/// The lines of `text` wrapped to `width` columns; an open line that is
/// still empty at the end is dropped.
pub open spec fn wrap_to_width(text: Seq<char>, width: nat) -> Seq<Seq<char>> {
    let st = pack_words(split_words(text), width);
    if st.1.len() > 0 {
        st.0.push(st.1)
    } else {
        st.0
    }
}

/// Wrapping with an optional column budget: without one the text is a
/// single line.
pub open spec fn wrap_spec(text: Seq<char>, max_width: Option<u32>) -> Seq<Seq<char>> {
    match max_width {
        Some(w) => wrap_to_width(text, w as nat),
        None => seq![text],
    }
}

pub open spec fn char_lines(v: Seq<Vec<char>>) -> Seq<Seq<char>> {
    v.map_values(|l: Vec<char>| l@)
}

fn append_chars(dst: &mut Vec<char>, src: &Vec<char>)
    ensures
        final(dst)@ == old(dst)@ + src@,
{
    let mut i: usize = 0;
    while i < src.len()
        invariant
            i <= src@.len(),
            dst@ == old(dst)@ + src@.subrange(0, i as int),
        decreases src@.len() - i,
    {
        dst.push(src[i]);
        proof {
            assert(src@.subrange(0, i + 1) =~= src@.subrange(0, i as int).push(src@[i as int]));
        }
        i += 1;
    }
    assert(src@.subrange(0, src@.len() as int) =~= src@);
}

fn pack_word_exec(lines: &mut Vec<Vec<char>>, cur: &mut Vec<char>, word: Vec<char>, width: usize)
    ensures
        (char_lines(final(lines)@), final(cur)@) == pack_word(
            char_lines(old(lines)@),
            old(cur)@,
            word@,
            width as nat,
        ),
{
    let fits = if cur.len() == 0 {
        word.len() <= width
    } else {
        cur.len() < width && word.len() < width - cur.len()
    };
    if !fits {
        if cur.len() == 0 {
            lines.push(word);
        } else {
            let mut done = word;
            std::mem::swap(cur, &mut done);
            lines.push(done);
        }
    } else if cur.len() == 0 {
        *cur = word;
    } else {
        cur.push(' ');
        append_chars(cur, &word);
    }
    assert(char_lines(lines@) =~= char_lines(old(lines)@) || char_lines(lines@)
        =~= char_lines(old(lines)@).push(lines@.last()@));
}

/// Wraps the characters of `text` greedily to `width` columns.
pub fn wrap_chars(text: &Vec<char>, width: usize) -> (r: Vec<Vec<char>>)
    ensures
        char_lines(r@) == wrap_to_width(text@, width as nat),
{
    let mut lines: Vec<Vec<char>> = Vec::new();
    let mut cur: Vec<char> = Vec::new();
    let mut word: Vec<char> = Vec::new();
    let mut i: usize = 0;
    assert(char_lines(lines@) =~= Seq::empty());
    while i < text.len()
        invariant
            i <= text@.len(),
            split_words(text@.subrange(0, i as int)).len() >= 1,
            (char_lines(lines@), cur@) == pack_words(
                split_words(text@.subrange(0, i as int)).drop_last(),
                width as nat,
            ),
            word@ == split_words(text@.subrange(0, i as int)).last(),
        decreases text@.len() - i,
    {
        let c = text[i];
        let ghost pre = text@.subrange(0, i as int);
        let ghost next = text@.subrange(0, i + 1);
        proof {
            assert(next.drop_last() =~= pre);
            assert(next.last() == c);
        }
        if c == ' ' {
            let mut w: Vec<char> = Vec::new();
            std::mem::swap(&mut word, &mut w);
            pack_word_exec(&mut lines, &mut cur, w, width);
            proof {
                assert(split_words(next).drop_last() =~= split_words(pre));
                assert(split_words(pre) =~= split_words(pre).drop_last().push(
                    split_words(pre).last(),
                ));
                assert(word@ =~= Seq::<char>::empty());
            }
        } else {
            word.push(c);
            proof {
                assert(split_words(next).drop_last() =~= split_words(pre).drop_last());
            }
        }
        i += 1;
    }
    proof {
        assert(text@.subrange(0, text@.len() as int) =~= text@);
        assert(split_words(text@) =~= split_words(text@).drop_last().push(
            split_words(text@).last(),
        ));
    }
    pack_word_exec(&mut lines, &mut cur, word, width);
    if cur.len() > 0 {
        lines.push(cur);
        assert(char_lines(lines@) =~= char_lines(lines@.drop_last()).push(lines@.last()@));
    }
    lines
}

/// The six predefined border styles.
#[derive(Clone, Copy, Debug, PartialEq, Eq, Structural)]
pub enum BorderType {
    Single,
    Double,
    LightShade,
    MediumShade,
    DarkShade,
    Black,
}

/// The eight glyphs that draw a rectangular frame.
#[derive(Clone, Copy, Debug, PartialEq, Eq, Structural)]
pub struct BorderCharacters {
    pub top_left: char,
    pub top: char,
    pub top_right: char,
    pub left: char,
    pub right: char,
    pub bottom_left: char,
    pub bottom: char,
    pub bottom_right: char,
}

pub open spec fn glyphs(
    top_left: char,
    top: char,
    top_right: char,
    left: char,
    right: char,
    bottom_left: char,
    bottom: char,
    bottom_right: char,
) -> BorderCharacters {
    BorderCharacters { top_left, top, top_right, left, right, bottom_left, bottom, bottom_right }
}

/// A frame drawn with one glyph all around.
pub open spec fn uniform(c: char) -> BorderCharacters {
    glyphs(c, c, c, c, c, c, c, c)
}

/// The glyph table of each border style.
pub open spec fn border_spec(b: BorderType) -> BorderCharacters {
    match b {
        BorderType::Single => glyphs('┌', '─', '┐', '│', '│', '└', '─', '┘'),
        BorderType::Double => glyphs('╔', '═', '╗', '║', '║', '╚', '═', '╝'),
        BorderType::LightShade => uniform('░'),
        BorderType::MediumShade => uniform('▒'),
        BorderType::DarkShade => uniform('▓'),
        BorderType::Black => glyphs('▄', '▄', '▄', '▐', '▌', '▀', '▀', '▀'),
    }
}

/// Looks up the glyphs of a border style.
pub fn border_characters(b: BorderType) -> (r: BorderCharacters)
    ensures
        r == border_spec(b),
{
    match b {
        BorderType::Single => BorderCharacters {
            top_left: '┌',
            top: '─',
            top_right: '┐',
            left: '│',
            right: '│',
            bottom_left: '└',
            bottom: '─',
            bottom_right: '┘',
        },
        BorderType::Double => BorderCharacters {
            top_left: '╔',
            top: '═',
            top_right: '╗',
            left: '║',
            right: '║',
            bottom_left: '╚',
            bottom: '═',
            bottom_right: '╝',
        },
        BorderType::LightShade => BorderCharacters {
            top_left: '░',
            top: '░',
            top_right: '░',
            left: '░',
            right: '░',
            bottom_left: '░',
            bottom: '░',
            bottom_right: '░',
        },
        BorderType::MediumShade => BorderCharacters {
            top_left: '▒',
            top: '▒',
            top_right: '▒',
            left: '▒',
            right: '▒',
            bottom_left: '▒',
            bottom: '▒',
            bottom_right: '▒',
        },
        BorderType::DarkShade => BorderCharacters {
            top_left: '▓',
            top: '▓',
            top_right: '▓',
            left: '▓',
            right: '▓',
            bottom_left: '▓',
            bottom: '▓',
            bottom_right: '▓',
        },
        BorderType::Black => BorderCharacters {
            top_left: '▄',
            top: '▄',
            top_right: '▄',
            left: '▐',
            right: '▌',
            bottom_left: '▀',
            bottom: '▀',
            bottom_right: '▀',
        },
    }
}

/// The greatest length among `lines`, 0 when there are none.
pub open spec fn max_len(lines: Seq<Seq<char>>) -> nat
    decreases lines.len(),
{
    if lines.len() == 0 {
        0
    } else {
        let m = max_len(lines.drop_last());
        if lines.last().len() > m {
            lines.last().len()
        } else {
            m
        }
    }
}

pub proof fn lemma_max_len_bounds(lines: Seq<Seq<char>>)
    ensures
        forall|i: int| 0 <= i < lines.len() ==> #[trigger] lines[i].len() <= max_len(lines),
    decreases lines.len(),
{
    if lines.len() > 0 {
        lemma_max_len_bounds(lines.drop_last());
        assert forall|i: int| 0 <= i < lines.len() implies #[trigger] lines[i].len() <= max_len(
            lines,
        ) by {
            if i < lines.len() - 1 {
                assert(lines[i] == lines.drop_last()[i]);
            }
        }
    }
}

pub open spec fn repeat_char(c: char, n: nat) -> Seq<char> {
    Seq::new(n, |i: int| c)
}

/// A content line between the side glyphs, with one space of margin on each
/// side and trailing spaces up to `width` characters of content.
pub open spec fn padded(line: Seq<char>, width: nat, left: char, right: char) -> Seq<char> {
    seq![left, ' '] + line + repeat_char(' ', (width - line.len()) as nat) + seq![' ', right]
}

/// A horizontal rule over `width` characters of content and its two margins.
pub open spec fn rule(left: char, fill: char, right: char, width: nat) -> Seq<char> {
    seq![left] + repeat_char(fill, width + 2) + seq![right]
}

/// `lines` framed with the glyphs `g`.
pub open spec fn frame_with(lines: Seq<Seq<char>>, g: BorderCharacters) -> Seq<Seq<char>> {
    let m = max_len(lines);
    seq![rule(g.top_left, g.top, g.top_right, m)] + lines.map_values(
        |l: Seq<char>| padded(l, m, g.left, g.right),
    ) + seq![rule(g.bottom_left, g.bottom, g.bottom_right, m)]
}

/// Framing with an optional border: without one the lines are unchanged.
pub open spec fn frame_spec(lines: Seq<Seq<char>>, border: Option<BorderType>) -> Seq<Seq<char>> {
    match border {
        Some(b) => frame_with(lines, border_spec(b)),
        None => lines,
    }
}

fn push_repeated(dst: &mut Vec<char>, c: char, n: usize)
    ensures
        final(dst)@ == old(dst)@ + repeat_char(c, n as nat),
{
    let mut i: usize = 0;
    while i < n
        invariant
            i <= n,
            dst@ == old(dst)@ + repeat_char(c, i as nat),
        decreases n - i,
    {
        dst.push(c);
        i += 1;
        assert(repeat_char(c, i as nat) =~= repeat_char(c, (i - 1) as nat).push(c));
    }
}

fn pad_line(line: &Vec<char>, width: usize, left: char, right: char) -> (r: Vec<char>)
    requires
        line@.len() <= width,
    ensures
        r@ == padded(line@, width as nat, left, right),
{
    let mut r: Vec<char> = Vec::new();
    r.push(left);
    r.push(' ');
    append_chars(&mut r, line);
    push_repeated(&mut r, ' ', width - line.len());
    r.push(' ');
    r.push(right);
    assert(r@ =~= padded(line@, width as nat, left, right));
    r
}

fn rule_line(left: char, fill: char, right: char, width: usize) -> (r: Vec<char>)
    ensures
        r@ == rule(left, fill, right, width as nat),
{
    let mut r: Vec<char> = Vec::new();
    r.push(left);
    push_repeated(&mut r, fill, width);
    r.push(fill);
    r.push(fill);
    r.push(right);
    assert(r@ =~= rule(left, fill, right, width as nat));
    r
}

fn max_line_len(lines: &Vec<Vec<char>>) -> (m: usize)
    ensures
        m as nat == max_len(char_lines(lines@)),
{
    let mut m: usize = 0;
    let mut i: usize = 0;
    while i < lines.len()
        invariant
            i <= lines@.len(),
            m as nat == max_len(char_lines(lines@.subrange(0, i as int))),
        decreases lines@.len() - i,
    {
        assert(char_lines(lines@.subrange(0, i + 1)).drop_last() =~= char_lines(
            lines@.subrange(0, i as int),
        ));
        if lines[i].len() > m {
            m = lines[i].len();
        }
        i += 1;
    }
    assert(lines@.subrange(0, lines@.len() as int) =~= lines@);
    m
}

/// Frames `lines` with the glyphs of `b`.
pub fn frame_chars(lines: &Vec<Vec<char>>, b: BorderType) -> (r: Vec<Vec<char>>)
    ensures
        char_lines(r@) == frame_with(char_lines(lines@), border_spec(b)),
{
    let g = border_characters(b);
    let m = max_line_len(lines);
    let ghost src = char_lines(lines@);
    proof {
        lemma_max_len_bounds(src);
    }
    let mut r: Vec<Vec<char>> = Vec::new();
    r.push(rule_line(g.top_left, g.top, g.top_right, m));
    let mut i: usize = 0;
    while i < lines.len()
        invariant
            i <= lines@.len(),
            src == char_lines(lines@),
            m as nat == max_len(src),
            forall|k: int| 0 <= k < src.len() ==> #[trigger] src[k].len() <= max_len(src),
            char_lines(r@) == seq![rule(g.top_left, g.top, g.top_right, m as nat)] + src.subrange(
                0,
                i as int,
            ).map_values(|l: Seq<char>| padded(l, m as nat, g.left, g.right)),
        decreases lines@.len() - i,
    {
        assert(src[i as int] == lines@[i as int]@);
        let p = pad_line(&lines[i], m, g.left, g.right);
        let ghost before = char_lines(r@);
        r.push(p);
        proof {
            let pm = |l: Seq<char>| padded(l, m as nat, g.left, g.right);
            assert(char_lines(r@) =~= before.push(p@));
            assert(src.subrange(0, i + 1).map_values(pm) =~= src.subrange(0, i as int).map_values(
                pm,
            ).push(pm(src[i as int])));
        }
        i += 1;
    }
    r.push(rule_line(g.bottom_left, g.bottom, g.bottom_right, m));
    assert(src.subrange(0, src.len() as int) =~= src);
    assert(char_lines(r@) =~= frame_with(src, g));
    r
}

pub open spec fn string_lines(v: Seq<String>) -> Seq<Seq<char>> {
    v.map_values(|l: String| l@)
}

/// The characters of `s`, in order.
pub(crate) fn chars_of(s: &str) -> (r: Vec<char>)
    ensures
        r@ == s@,
{
    let mut r: Vec<char> = Vec::new();
    for c in it: s.chars()
        invariant
            it.seq() == s@,
            r@ == it.seq().take(it.index() as int),
    {
        r.push(c);
    }
    r
}

/// Relies on `String`'s `FromIterator<&char>`: the string of these characters in order.
#[verifier::external_body]
pub(crate) fn string_of(chars: &Vec<char>) -> (r: String)
    ensures
        r@ == chars@,
{
    chars.iter().collect()
}

fn to_strings(lines: &Vec<Vec<char>>) -> (r: Vec<String>)
    ensures
        string_lines(r@) == char_lines(lines@),
{
    let mut r: Vec<String> = Vec::new();
    let mut i: usize = 0;
    while i < lines.len()
        invariant
            i <= lines@.len(),
            string_lines(r@) == char_lines(lines@.subrange(0, i as int)),
        decreases lines@.len() - i,
    {
        let ghost before = string_lines(r@);
        let s = string_of(&lines[i]);
        r.push(s);
        proof {
            assert(string_lines(r@) =~= before.push(s@));
            assert(char_lines(lines@.subrange(0, i + 1)) =~= char_lines(
                lines@.subrange(0, i as int),
            ).push(lines@[i as int]@));
        }
        i += 1;
    }
    assert(lines@.subrange(0, lines@.len() as int) =~= lines@);
    r
}

fn to_char_lines(lines: &Vec<String>) -> (r: Vec<Vec<char>>)
    ensures
        char_lines(r@) == string_lines(lines@),
{
    let mut r: Vec<Vec<char>> = Vec::new();
    let mut i: usize = 0;
    while i < lines.len()
        invariant
            i <= lines@.len(),
            char_lines(r@) == string_lines(lines@.subrange(0, i as int)),
        decreases lines@.len() - i,
    {
        let ghost before = char_lines(r@);
        let c = chars_of(lines[i].as_str());
        r.push(c);
        proof {
            assert(char_lines(r@) =~= before.push(c@));
            assert(string_lines(lines@.subrange(0, i + 1)) =~= string_lines(
                lines@.subrange(0, i as int),
            ).push(lines@[i as int]@));
        }
        i += 1;
    }
    assert(lines@.subrange(0, lines@.len() as int) =~= lines@);
    r
}

/// Wraps `text` into lines of at most `max_width` characters, packing words
/// greedily; a word longer than the budget stands alone on its line.
/// Without a budget the whole text is one line.
pub fn wrap_lines(text: &Vec<char>, max_width: Option<u32>) -> (r: Vec<Vec<char>>)
    ensures
        char_lines(r@) == wrap_spec(text@, max_width),
{
    match max_width {
        Some(w) => wrap_chars(text, w as usize),
        None => {
            let mut r: Vec<Vec<char>> = Vec::new();
            r.push(text.clone());
            assert(char_lines(r@) =~= seq![text@]);
            r
        },
    }
}

/// Frames `lines` with the glyphs of `border`, or hands them back unchanged
/// when there is no border.
pub fn frame_lines(lines: Vec<Vec<char>>, border: Option<BorderType>) -> (r: Vec<Vec<char>>)
    ensures
        char_lines(r@) == frame_spec(char_lines(lines@), border),
{
    match border {
        Some(b) => frame_chars(&lines, b),
        None => lines,
    }
}

/// `wrap_lines` on strings.
pub fn wrap(text: &str, max_width: Option<u32>) -> (r: Vec<String>)
    ensures
        string_lines(r@) == wrap_spec(text@, max_width),
{
    let chars = chars_of(text);
    to_strings(&wrap_lines(&chars, max_width))
}

/// `frame_lines` on strings.
pub fn frame(lines: &Vec<String>, border: Option<BorderType>) -> (r: Vec<String>)
    ensures
        string_lines(r@) == frame_spec(string_lines(lines@), border),
{
    to_strings(&frame_lines(to_char_lines(lines), border))
}

/// Whether `line` fits in `width` columns, or else is one of `words` on its own.
pub open spec fn fits_or_single_word(line: Seq<char>, words: Seq<Seq<char>>, width: nat) -> bool {
    line.len() <= width || words.contains(line)
}

proof fn lemma_pack_words_fit(words: Seq<Seq<char>>, all: Seq<Seq<char>>, width: nat)
    requires
        forall|i: int| 0 <= i < words.len() ==> all.contains(#[trigger] words[i]),
    ensures
        fits_or_single_word(pack_words(words, width).1, all, width),
        forall|i: int|
            0 <= i < pack_words(words, width).0.len() ==> fits_or_single_word(
                #[trigger] pack_words(words, width).0[i],
                all,
                width,
            ) && pack_words(words, width).0[i].len() > 0,
    decreases words.len(),
{
    if words.len() > 0 {
        let pre = words.drop_last();
        assert forall|i: int| 0 <= i < pre.len() implies all.contains(#[trigger] pre[i]) by {
            assert(pre[i] == words[i]);
        }
        lemma_pack_words_fit(pre, all, width);
        assert(all.contains(words[words.len() - 1]));
    }
}

/// Every wrapped line fits in the width, except a line that is a single
/// word of the text longer than the width; and no wrapped line is empty.
pub proof fn lemma_wrap_fits_width(text: Seq<char>, width: nat)
    ensures
        forall|i: int|
            0 <= i < wrap_to_width(text, width).len() ==> {
                let line = #[trigger] wrap_to_width(text, width)[i];
                &&& line.len() <= width || (split_words(text).contains(line) && line.len() > width)
                &&& line.len() > 0
            },
{
    let words = split_words(text);
    lemma_pack_words_fit(words, words, width);
    let st = pack_words(words, width);
    assert forall|i: int| 0 <= i < wrap_to_width(text, width).len() implies fits_or_single_word(
        #[trigger] wrap_to_width(text, width)[i],
        words,
        width,
    ) by {
        if i < st.0.len() {
            assert(fits_or_single_word(st.0[i], words, width));
        }
    }
    assert forall|i: int| 0 <= i < wrap_to_width(text, width).len() implies (
    #[trigger] wrap_to_width(text, width)[i]).len() > 0 by {
        if i < st.0.len() {
            assert(st.0[i].len() > 0);
        }
    }
}

proof fn lemma_pack_blank_words(words: Seq<Seq<char>>, width: nat)
    requires
        forall|i: int| 0 <= i < words.len() ==> (#[trigger] words[i]).len() == 0,
    ensures
        pack_words(words, width).0.len() == 0,
        pack_words(words, width).1.len() == 0,
    decreases words.len(),
{
    if words.len() > 0 {
        let pre = words.drop_last();
        assert forall|i: int| 0 <= i < pre.len() implies (#[trigger] pre[i]).len() == 0 by {
            assert(pre[i] == words[i]);
        }
        lemma_pack_blank_words(pre, width);
        assert(words[words.len() - 1].len() == 0);
    }
}

/// A text whose words are all empty (only spaces, or nothing) wraps to no
/// line at all.
pub proof fn lemma_blank_text_wraps_to_nothing(text: Seq<char>, width: nat)
    requires
        forall|i: int| 0 <= i < split_words(text).len() ==> (#[trigger] split_words(text)[i]).len() == 0,
    ensures
        wrap_to_width(text, width).len() == 0,
{
    lemma_pack_blank_words(split_words(text), width);
}

/// Without a column budget the text comes back as exactly one line, itself.
pub proof fn lemma_unbounded_wrap_is_identity(text: Seq<char>)
    ensures
        wrap_spec(text, None).len() == 1,
        wrap_spec(text, None)[0] == text,
{
}

proof fn lemma_padded_len(line: Seq<char>, width: nat, left: char, right: char)
    requires
        line.len() <= width,
    ensures
        padded(line, width, left, right).len() == width + 4,
{
}

/// A framed block is rectangular: the two rules and every padded line have
/// the same length, the widest line's length plus four.
pub proof fn lemma_frame_rectangular(lines: Seq<Seq<char>>, b: BorderType)
    ensures
        frame_spec(lines, Some(b)).len() == lines.len() + 2,
        forall|i: int|
            0 <= i < frame_spec(lines, Some(b)).len() ==> (#[trigger] frame_spec(
                lines,
                Some(b),
            )[i]).len() == max_len(lines) + 4,
{
    let g = border_spec(b);
    let m = max_len(lines);
    let f = frame_spec(lines, Some(b));
    lemma_max_len_bounds(lines);
    let body = lines.map_values(|l: Seq<char>| padded(l, m, g.left, g.right));
    assert forall|i: int| 0 <= i < f.len() implies (#[trigger] f[i]).len() == m + 4 by {
        if 1 <= i < f.len() - 1 {
            assert(f[i] == body[i - 1]);
            lemma_padded_len(lines[i - 1], m, g.left, g.right);
        }
    }
}

/// Framing no lines gives the two rules alone, each with two fill glyphs
/// between its corners.
pub proof fn lemma_frame_empty(b: BorderType)
    ensures
        ({
            let g = border_spec(b);
            frame_spec(Seq::empty(), Some(b)) == seq![
                seq![g.top_left, g.top, g.top, g.top_right],
                seq![g.bottom_left, g.bottom, g.bottom, g.bottom_right],
            ]
        }),
{
    let g = border_spec(b);
    let e = Seq::<Seq<char>>::empty();
    assert(max_len(e) == 0);
    assert(rule(g.top_left, g.top, g.top_right, 0) =~= seq![g.top_left, g.top, g.top, g.top_right]);
    assert(rule(g.bottom_left, g.bottom, g.bottom_right, 0) =~= seq![
        g.bottom_left,
        g.bottom,
        g.bottom,
        g.bottom_right,
    ]);
    assert(frame_spec(e, Some(b)) =~= seq![
        seq![g.top_left, g.top, g.top, g.top_right],
        seq![g.bottom_left, g.bottom, g.bottom, g.bottom_right],
    ]);
}

} // verus!
