//! Device commands for styled, wrapped and framed lines, and their
//! encoding into the printer's code page.

use vstd::prelude::*;
use codepage_437::{ToCp437, CP437_CONTROL};
use crate::layout::{
    border_spec, char_lines, chars_of, frame_lines, frame_spec, lemma_blank_text_wraps_to_nothing,
    lemma_frame_empty, lemma_frame_rectangular, max_len, split_words, string_of, wrap_lines,
    wrap_spec, BorderType,
};
use crate::style::{
    apply_commands, revert_commands, set_style, undo_style, Style, StyleCommand, StyleLayer,
};

verus! {

/// A primitive sent to the printer.
#[derive(Debug, PartialEq, Eq)]
pub enum Command {
    Style(StyleCommand),
    /// Bytes in the printer's code page, printed as they are.
    Raw(Vec<u8>),
    /// Advance by one line.
    Feed,
}

/// What a command does, over plain values.
pub enum CommandView {
    Style(StyleCommand),
    Raw(Seq<u8>),
    Feed,
}

impl View for Command {
    type V = CommandView;

    open spec fn view(&self) -> CommandView {
        match self {
            Command::Style(c) => CommandView::Style(*c),
            Command::Raw(b) => CommandView::Raw(b@),
            Command::Feed => CommandView::Feed,
        }
    }
}

pub open spec fn command_views(c: Seq<Command>) -> Seq<CommandView> {
    c.map_values(|x: Command| x@)
}

/// Why nothing could be printed.
#[derive(Clone, Copy, Debug, PartialEq, Eq, Structural)]
pub enum PrintError {
    /// A line holds a character that code page 437 cannot represent.
    Unencodable,
}

/// The code page 437 bytes of a text, or none where a character has no
/// code point there.
pub uninterp spec fn cp437_of(s: Seq<char>) -> Option<Seq<u8>>;

/// Relies on `codepage_437::ToCp437::to_cp437` with the `CP437_CONTROL`
/// dialect: the encoding is a function of the characters alone, and the
/// empty text encodes to no bytes.
#[verifier::external_body]
fn encode_cp437(s: &str) -> (r: Option<Vec<u8>>)
    ensures
        r is Some == cp437_of(s@) is Some,
        r is Some ==> r->0@ == cp437_of(s@)->0,
        s@.len() == 0 ==> (r is Some && r->0@.len() == 0),
{
    s.to_cp437(&CP437_CONTROL).ok().map(|b| b.into_owned())
}

/// The commands that print one encoded line and advance.
pub open spec fn line_ops(b: Seq<u8>) -> Seq<CommandView> {
    seq![CommandView::Raw(b), CommandView::Feed]
}

/// The commands that print each encoded line in turn.
pub open spec fn lines_ops(ls: Seq<Seq<u8>>) -> Seq<CommandView>
    decreases ls.len(),
{
    if ls.len() == 0 {
        Seq::empty()
    } else {
        lines_ops(ls.drop_last()) + line_ops(ls.last())
    }
}

pub open spec fn style_ops(c: Seq<StyleCommand>) -> Seq<CommandView> {
    c.map_values(|x: StyleCommand| CommandView::Style(x))
}

/// Apply the directives, print the lines, revert the directives.
pub open spec fn styled_ops(layers: Seq<StyleLayer>, ls: Seq<Seq<u8>>) -> Seq<CommandView> {
    style_ops(apply_commands(layers)) + lines_ops(ls) + style_ops(revert_commands(layers))
}

pub open spec fn all_encoded(enc: Seq<Option<Vec<u8>>>) -> bool {
    forall|i: int| 0 <= i < enc.len() ==> #[trigger] enc[i] is Some
}

pub open spec fn encoded_bytes(enc: Seq<Option<Vec<u8>>>) -> Seq<Seq<u8>> {
    enc.map_values(|o: Option<Vec<u8>>| o->0@)
}

pub open spec fn all_encodable(lines: Seq<Seq<char>>) -> bool {
    forall|i: int| 0 <= i < lines.len() ==> #[trigger] cp437_of(lines[i]) is Some
}

pub open spec fn cp437_lines(lines: Seq<Seq<char>>) -> Seq<Seq<u8>> {
    lines.map_values(|l: Seq<char>| cp437_of(l)->0)
}

/// The command that prints an encoded line, or the error for a line that
/// could not be encoded.
pub fn raw_command(encoded: Option<Vec<u8>>) -> (r: Result<Command, PrintError>)
    ensures
        match encoded {
            Some(b) => r is Ok && r->Ok_0@ == CommandView::Raw(b@),
            None => r == Err::<Command, PrintError>(PrintError::Unencodable),
        },
{
    match encoded {
        Some(b) => Ok(Command::Raw(b)),
        None => Err(PrintError::Unencodable),
    }
}

/// The command that prints `line` in code page 437.
pub fn print(line: &str) -> (r: Result<Command, PrintError>)
    ensures
        match cp437_of(line@) {
            Some(b) => r is Ok && r->Ok_0@ == CommandView::Raw(b),
            None => r == Err::<Command, PrintError>(PrintError::Unencodable),
        },
{
    raw_command(encode_cp437(line))
}

/// The commands that print `line` and advance by one line.
pub fn print_line(line: &str) -> (r: Result<Vec<Command>, PrintError>)
    ensures
        match cp437_of(line@) {
            Some(b) => r is Ok && command_views(r->Ok_0@) == line_ops(b),
            None => r == Err::<Vec<Command>, PrintError>(PrintError::Unencodable),
        },
{
    let raw = print(line)?;
    let mut r: Vec<Command> = Vec::new();
    r.push(raw);
    r.push(Command::Feed);
    assert(command_views(r@) =~= line_ops(cp437_of(line@)->0));
    Ok(r)
}

fn push_style_commands(r: &mut Vec<Command>, cmds: &Vec<StyleCommand>)
    ensures
        command_views(final(r)@) == command_views(old(r)@) + style_ops(cmds@),
{
    let mut i: usize = 0;
    while i < cmds.len()
        invariant
            i <= cmds@.len(),
            command_views(r@) == command_views(old(r)@) + style_ops(cmds@.subrange(0, i as int)),
        decreases cmds@.len() - i,
    {
        let ghost before = command_views(r@);
        r.push(Command::Style(cmds[i]));
        proof {
            assert(command_views(r@) =~= before.push(CommandView::Style(cmds@[i as int])));
            assert(style_ops(cmds@.subrange(0, i + 1)) =~= style_ops(
                cmds@.subrange(0, i as int),
            ).push(CommandView::Style(cmds@[i as int])));
        }
        i += 1;
    }
    assert(cmds@.subrange(0, cmds@.len() as int) =~= cmds@);
}

/// The commands that apply `style`, print each encoded line and advance
/// after it, then revert `style`; an error, and no command at all, where
/// some line could not be encoded.
pub fn styled_output(style: &Style, encoded: Vec<Option<Vec<u8>>>) -> (r: Result<
    Vec<Command>,
    PrintError,
>)
    ensures
        all_encoded(encoded@) ==> (r is Ok && command_views(r->Ok_0@) == styled_ops(
            style.layers@,
            encoded_bytes(encoded@),
        )),
        !all_encoded(encoded@) ==> r == Err::<Vec<Command>, PrintError>(PrintError::Unencodable),
{
    let mut k: usize = 0;
    while k < encoded.len()
        invariant
            k <= encoded@.len(),
            forall|j: int| 0 <= j < k ==> #[trigger] encoded@[j] is Some,
        decreases encoded@.len() - k,
    {
        if encoded[k].is_none() {
            return Err(PrintError::Unencodable);
        }
        k += 1;
    }
    let mut r: Vec<Command> = Vec::new();
    push_style_commands(&mut r, &set_style(style));
    let ghost head = command_views(r@);
    let mut i: usize = 0;
    while i < encoded.len()
        invariant
            i <= encoded@.len(),
            all_encoded(encoded@),
            command_views(r@) == head + lines_ops(encoded_bytes(encoded@.subrange(0, i as int))),
        decreases encoded@.len() - i,
    {
        let ghost before = command_views(r@);
        match &encoded[i] {
            Some(b) => {
                r.push(Command::Raw(b.clone()));
                r.push(Command::Feed);
            },
            None => {},
        }
        proof {
            let done = encoded_bytes(encoded@.subrange(0, i as int));
            let next = encoded_bytes(encoded@.subrange(0, i + 1));
            assert(next.drop_last() =~= done);
            assert(command_views(r@) =~= before + line_ops(encoded@[i as int]->0@));
        }
        i += 1;
    }
    assert(encoded@.subrange(0, encoded@.len() as int) =~= encoded@);
    push_style_commands(&mut r, &undo_style(style));
    Ok(r)
}

fn encode_lines(lines: &Vec<Vec<char>>) -> (r: Vec<Option<Vec<u8>>>)
    ensures
        r@.len() == lines@.len(),
        forall|i: int|
            0 <= i < r@.len() ==> (#[trigger] r@[i] is Some) == cp437_of(lines@[i]@) is Some && (
            r@[i] is Some ==> r@[i]->0@ == cp437_of(lines@[i]@)->0),
{
    let mut r: Vec<Option<Vec<u8>>> = Vec::new();
    let mut i: usize = 0;
    while i < lines.len()
        invariant
            i <= lines@.len(),
            r@.len() == i,
            forall|j: int|
                0 <= j < i ==> (#[trigger] r@[j] is Some) == cp437_of(lines@[j]@) is Some && (
                r@[j] is Some ==> r@[j]->0@ == cp437_of(lines@[j]@)->0),
        decreases lines@.len() - i,
    {
        let s = string_of(&lines[i]);
        r.push(encode_cp437(s.as_str()));
        i += 1;
    }
    r
}

proof fn lemma_encoded_lines(lines: Seq<Seq<char>>, enc: Seq<Option<Vec<u8>>>)
    requires
        enc.len() == lines.len(),
        forall|i: int|
            0 <= i < enc.len() ==> (#[trigger] enc[i] is Some) == cp437_of(lines[i]) is Some && (
            enc[i] is Some ==> enc[i]->0@ == cp437_of(lines[i])->0),
    ensures
        all_encoded(enc) == all_encodable(lines),
        all_encoded(enc) ==> encoded_bytes(enc) == cp437_lines(lines),
{
    if all_encoded(enc) {
        assert forall|i: int| 0 <= i < lines.len() implies #[trigger] cp437_of(lines[i]) is Some by {
            assert(enc[i] is Some);
        }
        assert(encoded_bytes(enc) =~= cp437_lines(lines));
    }
    if !all_encoded(enc) {
        let i = choose|i: int| 0 <= i < enc.len() && !(#[trigger] enc[i] is Some);
        assert(!(cp437_of(lines[i]) is Some));
    }
}

/// A column budget for wrapping and an optional border.
pub struct TextBox {
    wrap_chars: Option<u32>,
    border_type: Option<BorderType>,
}

impl View for TextBox {
    type V = (Option<u32>, Option<BorderType>);

    closed spec fn view(&self) -> (Option<u32>, Option<BorderType>) {
        (self.wrap_chars, self.border_type)
    }
}

impl TextBox {
    pub fn new(wrap_chars: Option<u32>, border_type: Option<BorderType>) -> (r: TextBox)
        ensures
            r@ == (wrap_chars, border_type),
    {
        TextBox { wrap_chars, border_type }
    }
}

/// The lines that a text box prints for `text`: wrapped, then framed.
pub open spec fn box_lines(text: Seq<char>, tb: (Option<u32>, Option<BorderType>)) -> Seq<
    Seq<char>,
> {
    frame_spec(wrap_spec(text, tb.0), tb.1)
}

/// The commands that print `text` as one line under `style`.
pub fn print_line_with_style(style: &Style, text: &str) -> (r: Result<Vec<Command>, PrintError>)
    ensures
        all_encodable(seq![text@]) ==> (r is Ok && command_views(r->Ok_0@) == styled_ops(
            style.layers@,
            cp437_lines(seq![text@]),
        )),
        !all_encodable(seq![text@]) ==> r == Err::<Vec<Command>, PrintError>(
            PrintError::Unencodable,
        ),
{
    let mut lines: Vec<Vec<char>> = Vec::new();
    lines.push(chars_of(text));
    assert(char_lines(lines@) =~= seq![text@]);
    let encoded = encode_lines(&lines);
    proof {
        lemma_encoded_lines(char_lines(lines@), encoded@);
    }
    styled_output(style, encoded)
}

/// The commands that print `text` under `style`, wrapped and framed as
/// `text_box` says, one line after the other.
pub fn print_line_with_style_box(style: &Style, text: &str, text_box: &TextBox) -> (r: Result<
    Vec<Command>,
    PrintError,
>)
    ensures
        all_encodable(box_lines(text@, text_box@)) ==> (r is Ok && command_views(r->Ok_0@)
            == styled_ops(style.layers@, cp437_lines(box_lines(text@, text_box@)))),
        !all_encodable(box_lines(text@, text_box@)) ==> r == Err::<Vec<Command>, PrintError>(
            PrintError::Unencodable,
        ),
{
    let chars = chars_of(text);
    let lines = frame_lines(wrap_lines(&chars, text_box.wrap_chars), text_box.border_type);
    let encoded = encode_lines(&lines);
    proof {
        lemma_encoded_lines(char_lines(lines@), encoded@);
    }
    styled_output(style, encoded)
}

/// A text box without budget or border prints the text itself as its one line.
pub proof fn lemma_plain_box_is_the_text(text: Seq<char>)
    ensures
        box_lines(text, (None, None)) == seq![text],
{
}

/// A text box with a border prints a rectangle: two lines more than the
/// wrapped text, each as long as the widest wrapped line plus four.
pub proof fn lemma_bordered_box_is_rectangular(text: Seq<char>, wrap: Option<u32>, b: BorderType)
    ensures
        box_lines(text, (wrap, Some(b))).len() == wrap_spec(text, wrap).len() + 2,
        forall|i: int|
            0 <= i < box_lines(text, (wrap, Some(b))).len() ==> (#[trigger] box_lines(
                text,
                (wrap, Some(b)),
            )[i]).len() == max_len(wrap_spec(text, wrap)) + 4,
{
    lemma_frame_rectangular(wrap_spec(text, wrap), b);
}

/// Under a budget and a border, a text whose words are all empty prints the
/// two rules alone, each with two fill glyphs between its corners.
pub proof fn lemma_blank_box_is_two_rules(text: Seq<char>, width: u32, b: BorderType)
    requires
        forall|i: int| 0 <= i < split_words(text).len() ==> (#[trigger] split_words(text)[i]).len() == 0,
    ensures
        ({
            let g = border_spec(b);
            box_lines(text, (Some(width), Some(b))) == seq![
                seq![g.top_left, g.top, g.top, g.top_right],
                seq![g.bottom_left, g.bottom, g.bottom, g.bottom_right],
            ]
        }),
{
    lemma_blank_text_wraps_to_nothing(text, width as nat);
    assert(wrap_spec(text, Some(width)) =~= Seq::<Seq<char>>::empty());
    lemma_frame_empty(b);
}

} // verus!
