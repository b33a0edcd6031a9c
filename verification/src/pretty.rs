//! A coloured outline of a derivation for the terminal.
//!
//! The outline is drawn by `termtree` and coloured with the escape sequences of
//! `ansi_term`. What this module proves is what goes into the outline: which
//! node stands where, under which heading and with which glyphs.

use vstd::prelude::*;
use crate::query::GOAL_FACT_NAME;
use crate::text::decimal;
use crate::tree::{ChildrenView, Tree, TreeView};
use crate::views::views;

verus! {

/// A colour for text on a terminal.
#[derive(Debug, Clone, Copy, PartialEq, Eq)]
pub enum Hue {
    Green,
    Yellow,
    Blue,
    Purple,
    /// A colour by its number in the palette of 256.
    Fixed(u8),
}

/// The code by which a terminal selects `hue` for the text that follows.
pub open spec fn hue_code(hue: Hue) -> Seq<char> {
    match hue {
        Hue::Green => "32"@,
        Hue::Yellow => "33"@,
        Hue::Blue => "34"@,
        Hue::Purple => "35"@,
        Hue::Fixed(number) => "38;5;"@ + decimal(number as int),
    }
}

/// `text` between the escape sequence that selects `hue` and the one that resets the terminal.
pub open spec fn painted(hue: Hue, text: Seq<char>) -> Seq<char> {
    "\x1B["@ + hue_code(hue) + "m"@ + text + "\x1B[0m"@
}

/// Calls `ansi_term::Colour::paint` and displays the result. The contract claims what
/// `ansi_term` writes for a style that sets a foreground colour and nothing else: the
/// escape character and `[`, the colour's foreground code, `m`, the text unchanged,
/// and the reset sequence.
#[verifier::external_body]
fn paint(hue: Hue, text: &str) -> (res: String)
    ensures
        res@ == painted(hue, text@),
{
    let colour = match hue {
        Hue::Green => ansi_term::Colour::Green,
        Hue::Yellow => ansi_term::Colour::Yellow,
        Hue::Blue => ansi_term::Colour::Blue,
        Hue::Purple => ansi_term::Colour::Purple,
        Hue::Fixed(number) => ansi_term::Colour::Fixed(number),
    };
    colour.paint(text).to_string()
}

/// The glyphs with which the branches of an outline are drawn.
#[derive(Debug, PartialEq, Eq)]
pub struct Glyphs {
    pub middle_item: String,
    pub last_item: String,
    pub item_indent: String,
    pub middle_skip: String,
    pub last_skip: String,
    pub skip_indent: String,
}

/// The mathematical model of [`Glyphs`].
pub struct GlyphsView {
    pub middle_item: Seq<char>,
    pub last_item: Seq<char>,
    pub item_indent: Seq<char>,
    pub middle_skip: Seq<char>,
    pub last_skip: Seq<char>,
    pub skip_indent: Seq<char>,
}

impl View for Glyphs {
    type V = GlyphsView;

    open spec fn view(&self) -> GlyphsView {
        GlyphsView {
            middle_item: self.middle_item@,
            last_item: self.last_item@,
            item_indent: self.item_indent@,
            middle_skip: self.middle_skip@,
            last_skip: self.last_skip@,
            skip_indent: self.skip_indent@,
        }
    }
}

/// `termtree::GlyphPalette`, the glyphs as `termtree` takes them. Nothing is known of what
/// is inside a palette but what the functions below say of [`palette_glyphs`].
#[verifier::external_type_specification]
#[verifier::external_body]
pub struct ExGlyphPalette(termtree::GlyphPalette);

/// The six glyphs that a palette of `termtree` holds, by the names of its fields.
pub uninterp spec fn palette_glyphs(palette: termtree::GlyphPalette) -> GlyphsView;

/// Calls `termtree::GlyphPalette::new` and copies the six glyphs out of the result.
/// The contract claims the glyphs that `termtree` draws with where none are given.
#[verifier::external_body]
fn default_glyphs() -> (res: Glyphs)
    ensures
        res@ == (GlyphsView {
            middle_item: "├"@,
            last_item: "└"@,
            item_indent: "── "@,
            middle_skip: "│"@,
            last_skip: " "@,
            skip_indent: "   "@,
        }),
{
    let palette = termtree::GlyphPalette::new();
    Glyphs {
        middle_item: palette.middle_item.to_string(),
        last_item: palette.last_item.to_string(),
        item_indent: palette.item_indent.to_string(),
        middle_skip: palette.middle_skip.to_string(),
        last_skip: palette.last_skip.to_string(),
        skip_indent: palette.skip_indent.to_string(),
    }
}

/// Makes a `termtree::GlyphPalette` of `glyphs`. A palette borrows its glyphs for the
/// rest of the program, so each string is given up with `String::leak`. The contract
/// claims that the palette holds the six glyphs as they were handed in.
#[verifier::external_body]
fn palette_of(glyphs: Glyphs) -> (res: termtree::GlyphPalette)
    ensures
        palette_glyphs(res) == glyphs@,
{
    termtree::GlyphPalette {
        middle_item: glyphs.middle_item.leak(),
        last_item: glyphs.last_item.leak(),
        item_indent: glyphs.item_indent.leak(),
        middle_skip: glyphs.middle_skip.leak(),
        last_skip: glyphs.last_skip.leak(),
        skip_indent: glyphs.skip_indent.leak(),
    }
}

/// One node of an outline: how far below the root it stands, its heading, and the
/// glyphs that it was given, if any.
pub struct Line {
    pub depth: nat,
    pub text: Seq<char>,
    pub glyphs: Option<GlyphsView>,
}

/// The nodes of a subtree as seen from its parent: each one level deeper.
pub open spec fn deepened(lines: Seq<Line>) -> Seq<Line> {
    lines.map_values(|line: Line| Line { depth: line.depth + 1, text: line.text, glyphs: line.glyphs })
}

/// A tree of headings, held as a `termtree::Tree<String>` and drawn by `termtree`.
/// Nothing is known of what is inside an outline but what the functions below say of
/// [`lines`]; an outline is made by them and in no other way.
#[verifier::external_body]
pub struct Outline {
    inner: termtree::Tree<String>,
}

/// The nodes of an outline: the root, then the nodes of each leaf in the order of the
/// leaves, so that every node comes before its own leaves.
pub uninterp spec fn lines(outline: Outline) -> Seq<Line>;

/// The text that `termtree` draws for an outline with these nodes: what
/// `termtree::Tree` writes when it is displayed.
pub uninterp spec fn drawn(lines: Seq<Line>) -> Seq<char>;

impl Outline {
    /// Calls `termtree::Tree::new`. The contract claims that the result is a single
    /// node with `root` as its heading, without leaves and without glyphs of its own.
    #[verifier::external_body]
    fn new(root: String) -> (res: Outline)
        ensures
            lines(res) == seq![Line { depth: 0, text: root@, glyphs: None }],
    {
        Outline { inner: termtree::Tree::new(root) }
    }

    /// Calls `termtree::Tree::with_glyphs`. The contract claims that the root is given
    /// the glyphs of `palette` and that nothing else changes.
    #[verifier::external_body]
    fn with_glyphs(self, palette: termtree::GlyphPalette) -> (res: Outline)
        ensures
            lines(res) == lines(self).update(
                0,
                Line {
                    depth: lines(self)[0].depth,
                    text: lines(self)[0].text,
                    glyphs: Some(palette_glyphs(palette)),
                },
            ),
    {
        Outline { inner: self.inner.with_glyphs(palette) }
    }

    /// Calls `termtree::Tree::push`. The contract claims that `leaf` becomes the last
    /// leaf of the root: its nodes follow all the others, one level deeper than they were.
    #[verifier::external_body]
    fn push(&mut self, leaf: Outline)
        ensures
            lines(*final(self)) == lines(*old(self)) + deepened(lines(leaf)),
    {
        self.inner.push(leaf.inner);
    }

    /// Calls `to_string` on the `termtree::Tree`, which `termtree` implements through
    /// `Display`. The contract claims that the text depends on nothing but the nodes of
    /// the outline: their headings, their depths and their glyphs.
    #[verifier::external_body]
    fn draw(&self) -> (res: String)
        ensures
            res@ == drawn(lines(*self)),
    {
        self.inner.to_string()
    }

    /// The outline as text, one line for each node, with the branches drawn in.
    pub fn to_text(&self) -> (res: String)
        ensures
            res@ == drawn(lines(*self)),
    {
        self.draw()
    }
}

/// The glyphs of every outline: those of `termtree`, with a shorter indentation, in grey.
pub open spec fn styled_glyphs() -> GlyphsView {
    GlyphsView {
        middle_item: painted(Hue::Fixed(8), "├"@),
        last_item: painted(Hue::Fixed(8), "└"@),
        item_indent: painted(Hue::Fixed(8), "─"@),
        middle_skip: painted(Hue::Fixed(8), "│"@),
        last_skip: painted(Hue::Fixed(8), " "@),
        skip_indent: painted(Hue::Fixed(8), " "@),
    }
}

impl TreeView {
    /// The heading of a node in an outline: a bullet, `prefix`, the kind of the node
    /// between square brackets, and the fact or the family that the node is about.
    pub open spec fn heading(self, prefix: Seq<char>) -> Seq<char> {
        match self {
            TreeView::Axiom(fact) => painted(Hue::Purple, "•"@) + " "@ + painted(Hue::Blue, prefix)
                + " "@ + painted(Hue::Purple, "[fact]"@) + " "@ + painted(Hue::Fixed(8), fact.text()),
            TreeView::Goal(name) => painted(Hue::Yellow, "•"@) + " "@ + painted(Hue::Yellow, prefix)
                + " "@ + painted(Hue::Yellow, "[goal]"@) + " "@ + painted(Hue::Fixed(8), "("@)
                + painted(Hue::Yellow, name) + painted(Hue::Fixed(8), ")"@),
            TreeView::Step { label, consequent, .. } => painted(Hue::Green, "•"@) + " "@ + painted(
                Hue::Blue,
                prefix,
            ) + " "@ + painted(Hue::Green, "["@ + label + "]"@) + " "@ + painted(
                Hue::Fixed(8),
                consequent.text(),
            ),
        }
    }

    /// The nodes of the outline of this tree: the tree's own heading with `prefix`, then
    /// the nodes of each antecedent, whose prefix is a dot and its tag. Every node is
    /// given `glyphs`.
    pub open spec fn outline(self, prefix: Seq<char>, glyphs: GlyphsView) -> Seq<Line>
        decreases self, 0nat,
    {
        let root = seq![Line { depth: 0, text: self.heading(prefix), glyphs: Some(glyphs) }];
        match self {
            TreeView::Step { antecedents, .. } => root + Self::outline_below(
                antecedents,
                antecedents.len(),
                glyphs,
            ),
            _ => root,
        }
    }

    /// The nodes of the outlines of the first `n` of `children`, one level down.
    pub open spec fn outline_below(children: ChildrenView, n: nat, glyphs: GlyphsView) -> Seq<
        Line,
    >
        decreases children, n,
    {
        if n == 0 || n > children.len() {
            Seq::empty()
        } else {
            Self::outline_below(children, (n - 1) as nat, glyphs) + deepened(
                children[n - 1].1.outline("."@ + children[n - 1].0, glyphs),
            )
        }
    }

    /// Whether this is the synthetic step that a tree built from a top-level goal starts with.
    pub open spec fn wraps_goal(self) -> bool {
        self is Step && self->consequent.name == GOAL_FACT_NAME@ && self->antecedents.len() == 1
    }

    /// The nodes of the outline that is shown for this tree: a synthetic root is left
    /// out, and its one antecedent is shown in its place.
    pub open spec fn pretty(self) -> Seq<Line> {
        if self.wraps_goal() {
            self->antecedents[0].1.outline("."@ + self->antecedents[0].0, styled_glyphs())
        } else {
            self.outline(Seq::empty(), styled_glyphs())
        }
    }
}

impl Tree {
    /// The heading of this node in an outline.
    fn heading(&self, prefix: &str) -> (res: String)
        ensures
            res@ == self@.heading(prefix@),
    {
        let grey = Hue::Fixed(8);
        match self {
            Tree::Axiom(fact) => {
                let mut res = paint(Hue::Purple, "•");
                res.append(" ");
                res.append(paint(Hue::Blue, prefix).as_str());
                res.append(" ");
                res.append(paint(Hue::Purple, "[fact]").as_str());
                res.append(" ");
                res.append(paint(grey, fact.to_text().as_str()).as_str());
                res
            },
            Tree::Goal(name) => {
                let mut res = paint(Hue::Yellow, "•");
                res.append(" ");
                res.append(paint(Hue::Yellow, prefix).as_str());
                res.append(" ");
                res.append(paint(Hue::Yellow, "[goal]").as_str());
                res.append(" ");
                res.append(paint(grey, "(").as_str());
                res.append(paint(Hue::Yellow, name.as_str()).as_str());
                res.append(paint(grey, ")").as_str());
                res
            },
            Tree::Step { label, consequent, .. } => {
                let mut kind = String::from_str("[");
                kind.append(label.as_str());
                kind.append("]");
                let mut res = paint(Hue::Green, "•");
                res.append(" ");
                res.append(paint(Hue::Blue, prefix).as_str());
                res.append(" ");
                res.append(paint(Hue::Green, kind.as_str()).as_str());
                res.append(" ");
                res.append(paint(grey, consequent.to_text().as_str()).as_str());
                res
            },
        }
    }

    /// The outline of this tree, every node with the glyphs of `palette`.
    #[verifier::loop_isolation(false)]
    fn termtree(&self, palette: termtree::GlyphPalette, prefix: &str) -> (res: Outline)
        ensures
            lines(res) == self@.outline(prefix@, palette_glyphs(palette)),
        decreases self,
    {
        let mut res = Outline::new(self.heading(prefix)).with_glyphs(palette);
        let ghost glyphs = palette_glyphs(palette);
        let ghost root = seq![Line { depth: 0, text: self@.heading(prefix@), glyphs: Some(glyphs) }];
        assert(lines(res) =~= root);
        match self {
            Tree::Step { antecedents, .. } => {
                proof {
                    self.lemma_step_view();
                }
                let ghost children = views(antecedents@);
                let mut i: usize = 0;
                assert(lines(res) =~= root + TreeView::outline_below(children, 0, glyphs));
                while i < antecedents.len()
                    invariant
                        i <= antecedents.len(),
                        lines(res) == root + TreeView::outline_below(children, i as nat, glyphs),
                    decreases antecedents.len() - i,
                {
                    let mut below = String::from_str(".");
                    below.append(antecedents[i].0.as_str());
                    let leaf = antecedents[i].1.termtree(palette, below.as_str());
                    res.push(leaf);
                    i += 1;
                    assert(lines(res) =~= root + TreeView::outline_below(children, i as nat, glyphs));
                }
            },
            _ => {},
        }
        res
    }

    /// Builds the coloured outline of this derivation. A tree that was built from a
    /// top-level goal is shown without its synthetic root.
    pub fn pretty(&self) -> (res: Outline)
        ensures
            lines(res) == self@.pretty(),
    {
        let grey = Hue::Fixed(8);
        let defaults = default_glyphs();
        let palette = palette_of(
            Glyphs {
                middle_item: paint(grey, defaults.middle_item.as_str()),
                last_item: paint(grey, defaults.last_item.as_str()),
                item_indent: paint(grey, "─"),
                middle_skip: paint(grey, defaults.middle_skip.as_str()),
                last_skip: paint(grey, defaults.last_skip.as_str()),
                skip_indent: paint(grey, " "),
            },
        );
        assert(palette_glyphs(palette) == styled_glyphs());
        match self {
            Tree::Step { antecedents, consequent, .. } => {
                proof {
                    self.lemma_step_view();
                }
                let goal_name = String::from_str(GOAL_FACT_NAME);
                if consequent.name == goal_name && antecedents.len() == 1 {
                    let mut below = String::from_str(".");
                    below.append(antecedents[0].0.as_str());
                    return antecedents[0].1.termtree(palette, below.as_str());
                }
            },
            _ => {},
        }
        let no_prefix = String::new();
        self.termtree(palette, no_prefix.as_str())
    }
}

} // verus!
