//! Style directives and the device commands that apply and revert them.

use vstd::prelude::*;

verus! {

/// A printer font.
#[derive(Clone, Copy, Debug, PartialEq, Eq, Structural)]
pub enum Font {
    A,
    B,
    C,
}

/// An underline mode.
#[derive(Clone, Copy, Debug, PartialEq, Eq, Structural)]
pub enum UnderlineMode {
    Off,
    Single,
    Double,
}

/// A justification mode.
#[derive(Clone, Copy, Debug, PartialEq, Eq, Structural)]
pub enum JustifyMode {
    Left,
    Center,
    Right,
}

/// One style directive.
#[derive(Clone, Copy, Debug, PartialEq, Eq)]
pub enum StyleLayer {
    Font(Font),
    Size((u8, u8)),
    Bold,
    Underline(UnderlineMode),
    Justify(JustifyMode),
    UpsideDown,
    Reverse,
    DoubleStrike,
    LineSpacing(u8),
}

/// A device style primitive.
#[derive(Clone, Copy, Debug, PartialEq, Eq, Structural)]
pub enum StyleCommand {
    Font(Font),
    Size(u8, u8),
    ResetSize,
    Bold(bool),
    Underline(UnderlineMode),
    Justify(JustifyMode),
    UpsideDown(bool),
    Reverse(bool),
    DoubleStrike(bool),
    LineSpacing(u8),
    ResetLineSpacing,
}

/// An ordered list of style directives.
pub struct Style {
    pub layers: Vec<StyleLayer>,
}

impl Style {
    pub fn new(layers: Vec<StyleLayer>) -> (r: Style)
        ensures
            r.layers@ == layers@,
    {
        Style { layers }
    }
}

/// The command that puts a directive into effect.
pub open spec fn apply_command(l: StyleLayer) -> StyleCommand {
    match l {
        StyleLayer::Font(f) => StyleCommand::Font(f),
        StyleLayer::Size((w, h)) => StyleCommand::Size(w, h),
        StyleLayer::Bold => StyleCommand::Bold(true),
        StyleLayer::Underline(m) => StyleCommand::Underline(m),
        StyleLayer::Justify(m) => StyleCommand::Justify(m),
        StyleLayer::UpsideDown => StyleCommand::UpsideDown(true),
        StyleLayer::Reverse => StyleCommand::Reverse(true),
        StyleLayer::DoubleStrike => StyleCommand::DoubleStrike(true),
        StyleLayer::LineSpacing(n) => StyleCommand::LineSpacing(n),
    }
}

/// The command that returns a directive's setting to its default; it
/// depends on the kind of directive only.
pub open spec fn revert_command(l: StyleLayer) -> StyleCommand {
    match l {
        StyleLayer::Font(_) => StyleCommand::Font(Font::A),
        StyleLayer::Size(_) => StyleCommand::ResetSize,
        StyleLayer::Bold => StyleCommand::Bold(false),
        StyleLayer::Underline(_) => StyleCommand::Underline(UnderlineMode::Off),
        StyleLayer::Justify(_) => StyleCommand::Justify(JustifyMode::Left),
        StyleLayer::UpsideDown => StyleCommand::UpsideDown(false),
        StyleLayer::Reverse => StyleCommand::Reverse(false),
        StyleLayer::DoubleStrike => StyleCommand::DoubleStrike(false),
        StyleLayer::LineSpacing(_) => StyleCommand::ResetLineSpacing,
    }
}

pub open spec fn apply_commands(layers: Seq<StyleLayer>) -> Seq<StyleCommand> {
    layers.map_values(|l: StyleLayer| apply_command(l))
}

pub open spec fn revert_commands(layers: Seq<StyleLayer>) -> Seq<StyleCommand> {
    layers.map_values(|l: StyleLayer| revert_command(l))
}

/// The device setting that a command changes.
pub open spec fn setting_of(c: StyleCommand) -> nat {
    match c {
        StyleCommand::Font(_) => 0,
        StyleCommand::Size(_, _) => 1,
        StyleCommand::ResetSize => 1,
        StyleCommand::Bold(_) => 2,
        StyleCommand::Underline(_) => 3,
        StyleCommand::Justify(_) => 4,
        StyleCommand::UpsideDown(_) => 5,
        StyleCommand::Reverse(_) => 6,
        StyleCommand::DoubleStrike(_) => 7,
        StyleCommand::LineSpacing(_) => 8,
        StyleCommand::ResetLineSpacing => 8,
    }
}

/// Whether a command sets its setting to the device default.
pub open spec fn is_neutral(c: StyleCommand) -> bool {
    match c {
        StyleCommand::Font(f) => f == Font::A,
        StyleCommand::Size(_, _) => false,
        StyleCommand::ResetSize => true,
        StyleCommand::Bold(on) => !on,
        StyleCommand::Underline(m) => m == UnderlineMode::Off,
        StyleCommand::Justify(m) => m == JustifyMode::Left,
        StyleCommand::UpsideDown(on) => !on,
        StyleCommand::Reverse(on) => !on,
        StyleCommand::DoubleStrike(on) => !on,
        StyleCommand::LineSpacing(_) => false,
        StyleCommand::ResetLineSpacing => true,
    }
}

/// Whether two directives are of the same kind, whatever their values.
pub open spec fn same_kind(a: StyleLayer, b: StyleLayer) -> bool {
    setting_of(apply_command(a)) == setting_of(apply_command(b))
}

fn layer_command(l: StyleLayer) -> (r: StyleCommand)
    ensures
        r == apply_command(l),
{
    match l {
        StyleLayer::Font(f) => StyleCommand::Font(f),
        StyleLayer::Size((w, h)) => StyleCommand::Size(w, h),
        StyleLayer::Bold => StyleCommand::Bold(true),
        StyleLayer::Underline(m) => StyleCommand::Underline(m),
        StyleLayer::Justify(m) => StyleCommand::Justify(m),
        StyleLayer::UpsideDown => StyleCommand::UpsideDown(true),
        StyleLayer::Reverse => StyleCommand::Reverse(true),
        StyleLayer::DoubleStrike => StyleCommand::DoubleStrike(true),
        StyleLayer::LineSpacing(n) => StyleCommand::LineSpacing(n),
    }
}

fn layer_reset(l: StyleLayer) -> (r: StyleCommand)
    ensures
        r == revert_command(l),
{
    match l {
        StyleLayer::Font(_) => StyleCommand::Font(Font::A),
        StyleLayer::Size(_) => StyleCommand::ResetSize,
        StyleLayer::Bold => StyleCommand::Bold(false),
        StyleLayer::Underline(_) => StyleCommand::Underline(UnderlineMode::Off),
        StyleLayer::Justify(_) => StyleCommand::Justify(JustifyMode::Left),
        StyleLayer::UpsideDown => StyleCommand::UpsideDown(false),
        StyleLayer::Reverse => StyleCommand::Reverse(false),
        StyleLayer::DoubleStrike => StyleCommand::DoubleStrike(false),
        StyleLayer::LineSpacing(_) => StyleCommand::ResetLineSpacing,
    }
}

/// The commands that apply the directives of `style`, one per directive,
/// in list order.
pub fn set_style(style: &Style) -> (r: Vec<StyleCommand>)
    ensures
        r@ == apply_commands(style.layers@),
{
    let mut r: Vec<StyleCommand> = Vec::new();
    let mut i: usize = 0;
    while i < style.layers.len()
        invariant
            i <= style.layers@.len(),
            r@ == apply_commands(style.layers@.subrange(0, i as int)),
        decreases style.layers@.len() - i,
    {
        r.push(layer_command(style.layers[i]));
        i += 1;
        assert(r@ =~= apply_commands(style.layers@.subrange(0, i as int)));
    }
    assert(style.layers@.subrange(0, style.layers@.len() as int) =~= style.layers@);
    r
}

/// The commands that revert the directives of `style` to their defaults,
/// one per directive, in list order.
pub fn undo_style(style: &Style) -> (r: Vec<StyleCommand>)
    ensures
        r@ == revert_commands(style.layers@),
{
    let mut r: Vec<StyleCommand> = Vec::new();
    let mut i: usize = 0;
    while i < style.layers.len()
        invariant
            i <= style.layers@.len(),
            r@ == revert_commands(style.layers@.subrange(0, i as int)),
        decreases style.layers@.len() - i,
    {
        r.push(layer_reset(style.layers[i]));
        i += 1;
        assert(r@ =~= revert_commands(style.layers@.subrange(0, i as int)));
    }
    assert(style.layers@.subrange(0, style.layers@.len() as int) =~= style.layers@);
    r
}

/// Reverting mirrors applying: one command per directive, each resetting
/// the very setting that the directive's own command changed to its default,
/// and the same for every directive of one kind whatever its value.
pub proof fn lemma_revert_mirrors_apply(layers: Seq<StyleLayer>)
    ensures
        revert_commands(layers).len() == apply_commands(layers).len(),
        revert_commands(layers).len() == layers.len(),
        forall|i: int|
            0 <= i < layers.len() ==> setting_of(#[trigger] revert_commands(layers)[i])
                == setting_of(apply_commands(layers)[i]) && is_neutral(revert_commands(layers)[i]),
        forall|a: StyleLayer, b: StyleLayer|
            #[trigger] same_kind(a, b) ==> revert_command(a) == revert_command(b),
{
}

} // verus!
