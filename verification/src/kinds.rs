//! The names by which a plot specification selects trace kinds, overlay kinds
//! and colormaps.
use vstd::prelude::*;
use vstd::string::*;

verus! {

/// Whether two strings hold the same characters.
pub fn same_text(s: &str, t: &str) -> (b: bool)
    ensures
        b == (s@ == t@),
{
    let n = s.unicode_len();
    if n != t.unicode_len() {
        return false;
    }
    let mut i: usize = 0;
    while i < n
        invariant
            n == s@.len(),
            n == t@.len(),
            i <= n,
            forall|j: int| 0 <= j < i ==> s@[j] == t@[j],
        decreases n - i,
    {
        if s.get_char(i) != t.get_char(i) {
            return false;
        }
        i += 1;
    }
    assert(s@ =~= t@);
    true
}

/// What a trace draws.
#[derive(Clone, Copy, Debug, PartialEq, Eq, Structural)]
pub enum TraceKind {
    Line,
    Scatter,
    Imshow,
}

/// What an overlay draws.
#[derive(Clone, Copy, Debug, PartialEq, Eq, Structural)]
pub enum OverlayKind {
    Circle,
    Crosshair,
    Polyline,
    Label,
    Rect,
    Polygon,
}

/// A `kind` name that the specification format does not know; it carries the name.
#[derive(Debug)]
pub enum KindError {
    UnknownTrace(String),
    UnknownOverlay(String),
}

/// The trace kind a name selects, if any.
pub open spec fn trace_kind_of(name: Seq<char>) -> Option<TraceKind> {
    if name == "line"@ {
        Some(TraceKind::Line)
    } else if name == "scatter"@ {
        Some(TraceKind::Scatter)
    } else if name == "imshow"@ {
        Some(TraceKind::Imshow)
    } else {
        None
    }
}

/// The overlay kind a name selects, if any.
pub open spec fn overlay_kind_of(name: Seq<char>) -> Option<OverlayKind> {
    if name == "circle"@ {
        Some(OverlayKind::Circle)
    } else if name == "crosshair"@ {
        Some(OverlayKind::Crosshair)
    } else if name == "polyline"@ {
        Some(OverlayKind::Polyline)
    } else if name == "label"@ {
        Some(OverlayKind::Label)
    } else if name == "rect"@ {
        Some(OverlayKind::Rect)
    } else if name == "polygon"@ {
        Some(OverlayKind::Polygon)
    } else {
        None
    }
}

/// Reads a trace's `kind` name: "line", "scatter" or "imshow"; any other name is refused
/// with `UnknownTrace` carrying it.
pub fn parse_trace_kind(kind: &str) -> (r: Result<TraceKind, KindError>)
    ensures
        trace_kind_of(kind@) matches Some(k) ==> r == Ok::<TraceKind, KindError>(k),
        trace_kind_of(kind@) is None ==> (r matches Err(KindError::UnknownTrace(name)) && name@ == kind@),
{
    if same_text(kind, "line") {
        Ok(TraceKind::Line)
    } else if same_text(kind, "scatter") {
        Ok(TraceKind::Scatter)
    } else if same_text(kind, "imshow") {
        Ok(TraceKind::Imshow)
    } else {
        Err(KindError::UnknownTrace(kind.to_owned()))
    }
}

/// Reads an overlay's `kind` name: "circle", "crosshair", "polyline", "label", "rect" or
/// "polygon"; any other name is refused with `UnknownOverlay` carrying it.
pub fn parse_overlay_kind(kind: &str) -> (r: Result<OverlayKind, KindError>)
    ensures
        overlay_kind_of(kind@) matches Some(k) ==> r == Ok::<OverlayKind, KindError>(k),
        overlay_kind_of(kind@) is None ==> (r matches Err(KindError::UnknownOverlay(name)) && name@ == kind@),
{
    if same_text(kind, "circle") {
        Ok(OverlayKind::Circle)
    } else if same_text(kind, "crosshair") {
        Ok(OverlayKind::Crosshair)
    } else if same_text(kind, "polyline") {
        Ok(OverlayKind::Polyline)
    } else if same_text(kind, "label") {
        Ok(OverlayKind::Label)
    } else if same_text(kind, "rect") {
        Ok(OverlayKind::Rect)
    } else if same_text(kind, "polygon") {
        Ok(OverlayKind::Polygon)
    } else {
        Err(KindError::UnknownOverlay(kind.to_owned()))
    }
}

/// A colour lookup table.
#[derive(Clone, Copy, Debug, PartialEq, Eq, Structural)]
pub enum Colormap {
    Gray,
    Viridis,
    Inferno,
    RdYlGn,
    Hot,
}

/// The colormap a name selects; unknown names fall back to viridis.
pub open spec fn colormap_of(name: Seq<char>) -> Colormap {
    if name == "gray"@ || name == "grayscale"@ || name == "grey"@ {
        Colormap::Gray
    } else if name == "viridis"@ {
        Colormap::Viridis
    } else if name == "inferno"@ {
        Colormap::Inferno
    } else if name == "RdYlGn"@ || name == "rdylgn"@ {
        Colormap::RdYlGn
    } else if name == "hot"@ {
        Colormap::Hot
    } else {
        Colormap::Viridis
    }
}

/// Looks a colormap up by name: "gray", "grayscale" and "grey" give the grayscale ramp,
/// "viridis", "inferno", "RdYlGn" (or "rdylgn") and "hot" their tables, and any other
/// name viridis.
pub fn colormap_by_name(name: &str) -> (r: Colormap)
    ensures
        r == colormap_of(name@),
{
    if same_text(name, "gray") || same_text(name, "grayscale") || same_text(name, "grey") {
        Colormap::Gray
    } else if same_text(name, "viridis") {
        Colormap::Viridis
    } else if same_text(name, "inferno") {
        Colormap::Inferno
    } else if same_text(name, "RdYlGn") || same_text(name, "rdylgn") {
        Colormap::RdYlGn
    } else if same_text(name, "hot") {
        Colormap::Hot
    } else {
        Colormap::Viridis
    }
}

/// The trace kinds are named "line", "scatter" and "imshow", one name each; no other name
/// selects a trace kind.
pub proof fn law_trace_kind_names(name: Seq<char>, other: Seq<char>)
    ensures
        trace_kind_of("line"@) == Some(TraceKind::Line),
        trace_kind_of("scatter"@) == Some(TraceKind::Scatter),
        trace_kind_of("imshow"@) == Some(TraceKind::Imshow),
        trace_kind_of(name) is Some && trace_kind_of(name) == trace_kind_of(other) ==> name == other,
        trace_kind_of(name) is Some ==> name == "line"@ || name == "scatter"@ || name == "imshow"@,
{
    reveal_strlit("line");
    reveal_strlit("scatter");
    reveal_strlit("imshow");
    assert("line"@.len() == 4 && "scatter"@.len() == 7 && "imshow"@.len() == 6);
}

/// The overlay kinds are named "circle", "crosshair", "polyline", "label", "rect" and
/// "polygon", one name each; no other name selects an overlay kind.
pub proof fn law_overlay_kind_names(name: Seq<char>, other: Seq<char>)
    ensures
        overlay_kind_of("circle"@) == Some(OverlayKind::Circle),
        overlay_kind_of("crosshair"@) == Some(OverlayKind::Crosshair),
        overlay_kind_of("polyline"@) == Some(OverlayKind::Polyline),
        overlay_kind_of("label"@) == Some(OverlayKind::Label),
        overlay_kind_of("rect"@) == Some(OverlayKind::Rect),
        overlay_kind_of("polygon"@) == Some(OverlayKind::Polygon),
        overlay_kind_of(name) is Some && overlay_kind_of(name) == overlay_kind_of(other) ==> name == other,
        overlay_kind_of(name) is Some ==> name == "circle"@ || name == "crosshair"@ || name == "polyline"@
            || name == "label"@ || name == "rect"@ || name == "polygon"@,
{
    reveal_strlit("circle");
    reveal_strlit("crosshair");
    reveal_strlit("polyline");
    reveal_strlit("label");
    reveal_strlit("rect");
    reveal_strlit("polygon");
    assert("circle"@.len() == 6 && "crosshair"@.len() == 9 && "polyline"@.len() == 8 && "label"@.len() == 5
        && "rect"@.len() == 4 && "polygon"@.len() == 7);
    assert("polyline"@[4] == 'l' && "polygon"@[4] == 'g');
    assert("circle"@[0] == 'c' && "polygon"@[0] == 'p');
}

/// "gray", "grayscale" and "grey" select the grey ramp; "viridis", "inferno", "RdYlGn" or
/// "rdylgn", and "hot" select their tables; every other name selects viridis.
pub proof fn law_colormap_names(name: Seq<char>)
    ensures
        colormap_of("gray"@) == Colormap::Gray,
        colormap_of("grayscale"@) == Colormap::Gray,
        colormap_of("grey"@) == Colormap::Gray,
        colormap_of("viridis"@) == Colormap::Viridis,
        colormap_of("inferno"@) == Colormap::Inferno,
        colormap_of("RdYlGn"@) == Colormap::RdYlGn,
        colormap_of("rdylgn"@) == Colormap::RdYlGn,
        colormap_of("hot"@) == Colormap::Hot,
        !(name == "gray"@ || name == "grayscale"@ || name == "grey"@ || name == "inferno"@ || name == "RdYlGn"@
            || name == "rdylgn"@ || name == "hot"@) ==> colormap_of(name) == Colormap::Viridis,
{
    reveal_strlit("gray");
    reveal_strlit("grayscale");
    reveal_strlit("grey");
    reveal_strlit("viridis");
    reveal_strlit("inferno");
    reveal_strlit("RdYlGn");
    reveal_strlit("rdylgn");
    reveal_strlit("hot");
    assert("gray"@.len() == 4 && "grayscale"@.len() == 9 && "grey"@.len() == 4 && "viridis"@.len() == 7
        && "inferno"@.len() == 7 && "RdYlGn"@.len() == 6 && "rdylgn"@.len() == 6 && "hot"@.len() == 3);
    assert("gray"@[2] == 'a' && "grey"@[2] == 'e');
    assert("viridis"@[0] == 'v' && "inferno"@[0] == 'i');
    assert("RdYlGn"@[0] == 'R' && "rdylgn"@[0] == 'r');
}

} // verus!
