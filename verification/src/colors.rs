//! Colour rules of the renderer: how a colour is read from a list of bytes and
//! which derived colours outlines, text shadows and backgrounds use.
use vstd::prelude::*;

verus! {

/// Entry `i` of `list`, or `default` where the list is too short.
pub open spec fn entry_or(list: Seq<u8>, i: int, default: u8) -> u8 {
    if i < list.len() {
        list[i]
    } else {
        default
    }
}

/// Reads an RGBA colour from a list of bytes: the first four entries are red, green,
/// blue and alpha; missing colour channels are 0 and a missing alpha is 255. Entries
/// past the fourth are ignored.
pub fn color_from_list(list: &[u8]) -> (r: [u8; 4])
    ensures
        r[0] == entry_or(list@, 0, 0),
        r[1] == entry_or(list@, 1, 0),
        r[2] == entry_or(list@, 2, 0),
        r[3] == entry_or(list@, 3, 255),
        list@.len() >= 4 ==> r[0] == list@[0] && r[1] == list@[1] && r[2] == list@[2] && r[3] == list@[3],
        list@.len() <= 3 ==> r[3] == 255,
        list@.len() <= 2 ==> r[2] == 0,
        list@.len() <= 1 ==> r[1] == 0,
        list@.len() == 0 ==> r[0] == 0,
        forall|i: int| 0 <= i < 4 && i < list@.len() ==> r[i] == list@[i],
{
    let n = list.len();
    let red = if n > 0 { list[0] } else { 0 };
    let green = if n > 1 { list[1] } else { 0 };
    let blue = if n > 2 { list[2] } else { 0 };
    let alpha = if n > 3 { list[3] } else { 255 };
    [red, green, blue, alpha]
}

/// The contrast outline drawn under an outlined shape: black at half the shape's alpha.
pub fn outline_color(color: [u8; 4]) -> (r: [u8; 4])
    ensures
        r[0] == 0 && r[1] == 0 && r[2] == 0,
        r[3] == color[3] / 2,
{
    [0, 0, 0, color[3] / 2]
}

/// The background a plot is cleared to: opaque black for a frameless image, opaque
/// white for a framed plot.
pub fn background_color(frameless: bool) -> (r: [u8; 4])
    ensures
        frameless ==> r[0] == 0 && r[1] == 0 && r[2] == 0,
        !frameless ==> r[0] == 255 && r[1] == 255 && r[2] == 255,
        r[3] == 255,
{
    if frameless {
        [0, 0, 0, 255]
    } else {
        [255, 255, 255, 255]
    }
}

/// One pass of drawing a label's text: offset in pixels and colour.
#[derive(Clone, Copy, Debug, PartialEq, Eq)]
pub struct TextPass {
    pub dx: i32,
    pub dy: i32,
    pub color: [u8; 4],
}

/// The passes that draw a label, in order: with `stroke`, four black copies at the
/// label's alpha, offset one pixel left, right, up and down; then the text itself.
pub open spec fn label_passes_spec(color: [u8; 4], stroke: bool) -> Seq<TextPass> {
    let shadow: [u8; 4] = [0u8, 0u8, 0u8, color[3]];
    let main = TextPass { dx: 0, dy: 0, color };
    if stroke {
        seq![
            TextPass { dx: -1i32, dy: 0, color: shadow },
            TextPass { dx: 1, dy: 0, color: shadow },
            TextPass { dx: 0, dy: -1i32, color: shadow },
            TextPass { dx: 0, dy: 1, color: shadow },
            main,
        ]
    } else {
        seq![main]
    }
}

/// The passes that draw a label's text (see `label_passes_spec`).
pub fn label_passes(color: [u8; 4], stroke: bool) -> (r: Vec<TextPass>)
    ensures
        r@ == label_passes_spec(color, stroke),
{
    let shadow: [u8; 4] = [0, 0, 0, color[3]];
    let mut passes: Vec<TextPass> = Vec::new();
    if stroke {
        passes.push(TextPass { dx: -1, dy: 0, color: shadow });
        passes.push(TextPass { dx: 1, dy: 0, color: shadow });
        passes.push(TextPass { dx: 0, dy: -1, color: shadow });
        passes.push(TextPass { dx: 0, dy: 1, color: shadow });
    }
    passes.push(TextPass { dx: 0, dy: 0, color });
    assert(passes@ =~= label_passes_spec(color, stroke));
    passes
}

/// A stroked label is drawn five times: four black shadows at the label's alpha, each one
/// pixel away in a different direction (left, right, up, down), and then the text itself
/// in place in its own colour, on top. An unstroked label is drawn once, in place.
pub proof fn law_label_passes_shape(color: [u8; 4], stroke: bool)
    ensures
        ({
            let p = label_passes_spec(color, stroke);
            &&& p.len() == if stroke { 5int } else { 1int }
            &&& p.last().dx == 0 && p.last().dy == 0 && p.last().color == color
            &&& forall|i: int|
                0 <= i < p.len() - 1 ==> {
                    &&& (#[trigger] p[i]).color[0] == 0 && p[i].color[1] == 0 && p[i].color[2] == 0
                    &&& p[i].color[3] == color[3]
                    &&& (p[i].dx == 0 || p[i].dy == 0)
                    &&& (p[i].dx == 1 || p[i].dx == -1 || p[i].dy == 1 || p[i].dy == -1)
                    &&& -1 <= p[i].dx <= 1 && -1 <= p[i].dy <= 1
                }
            &&& forall|i: int, j: int|
                0 <= i < j < p.len() - 1 ==> (#[trigger] p[i].dx != #[trigger] p[j].dx || p[i].dy != p[j].dy)
        }),
{
    let p = label_passes_spec(color, stroke);
    if stroke {
        assert(p[0].dx == -1 && p[0].dy == 0);
        assert(p[1].dx == 1 && p[1].dy == 0);
        assert(p[2].dx == 0 && p[2].dy == -1);
        assert(p[3].dx == 0 && p[3].dy == 1);
        assert(p[4].dx == 0 && p[4].dy == 0 && p[4].color == color);
        assert(p[0].color[3] == color[3] && p[1].color[3] == color[3] && p[2].color[3] == color[3] && p[3].color[3] == color[3]);
        assert(p[0].color[0] == 0 && p[1].color[0] == 0 && p[2].color[0] == 0 && p[3].color[0] == 0);
        assert(p[0].color[1] == 0 && p[1].color[1] == 0 && p[2].color[1] == 0 && p[3].color[1] == 0);
        assert(p[0].color[2] == 0 && p[1].color[2] == 0 && p[2].color[2] == 0 && p[3].color[2] == 0);
    } else {
        assert(p[0].dx == 0 && p[0].dy == 0 && p[0].color == color);
    }
}

} // verus!
