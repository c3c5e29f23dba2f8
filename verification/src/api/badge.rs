//! Build-status badges: an SVG with the latest build's state.
use crate::job_group_registry::JobGroupState;
use crate::text::{dec, push_i64, push_str, utf8_len};
use vstd::prelude::*;

verus! {

/// The badge text and color for the latest group's state, if any.
pub open spec fn badge_for_spec(state: Option<JobGroupState>) -> (Seq<char>, Seq<char>) {
    match state {
        Some(JobGroupState::Success) => ("passing"@, "#4c1"@),
        Some(JobGroupState::Failed) => ("failing"@, "#e05d44"@),
        Some(JobGroupState::Running) | Some(JobGroupState::Reserved) => ("running"@, "#007ec6"@),
        _ => ("unknown"@, "#9f9f9f"@),
    }
}

pub fn badge_for(state: Option<JobGroupState>) -> (r: (&'static str, &'static str))
    ensures
        (r.0@, r.1@) == badge_for_spec(state),
{
    match state {
        Some(JobGroupState::Success) => ("passing", "#4c1"),
        Some(JobGroupState::Failed) => ("failing", "#e05d44"),
        Some(JobGroupState::Running) | Some(JobGroupState::Reserved) => ("running", "#007ec6"),
        _ => ("unknown", "#9f9f9f"),
    }
}

/// Width of the value part: 7 per byte of the label, plus 10.
pub open spec fn value_width(label: Seq<char>) -> int {
    utf8_len(label) as int * 7 + 10
}

/// The SVG of a badge reading `build | label`, the label on `color`.
pub open spec fn badge_svg_text(label: Seq<char>, color: Seq<char>) -> Seq<char> {
    let vw = value_width(label);
    "<svg xmlns=\"http://www.w3.org/2000/svg\" width=\""@ + dec(37 + vw) + "\" height=\"20\">"@
        + "<rect width=\"37\" height=\"20\" fill=\"#555\"/>"@ + "<rect x=\"37\" width=\""@ + dec(vw)
        + "\" height=\"20\" fill=\""@ + color + "\"/>"@
        + "<text x=\"4\" y=\"14\" fill=\"#fff\" font-family=\"DejaVu Sans,sans-serif\" font-size=\"11\">build</text>"@
        + "<text x=\"42\" y=\"14\" fill=\"#fff\" font-family=\"DejaVu Sans,sans-serif\" font-size=\"11\">"@
        + label + "</text>"@ + "</svg>"@
}

pub fn badge_svg(label: &str, color: &str) -> (s: String)
    requires
        37 + value_width(label@) <= i32::MAX,
    ensures
        s@ == badge_svg_text(label@, color@),
{
    let n = crate::text::utf8_len_of(label);
    let vw: i64 = (n * 7 + 10) as i64;
    let mut s = String::new();
    push_str(&mut s, "<svg xmlns=\"http://www.w3.org/2000/svg\" width=\"");
    push_i64(&mut s, 37 + vw);
    push_str(&mut s, "\" height=\"20\">");
    push_str(&mut s, "<rect width=\"37\" height=\"20\" fill=\"#555\"/>");
    push_str(&mut s, "<rect x=\"37\" width=\"");
    push_i64(&mut s, vw);
    push_str(&mut s, "\" height=\"20\" fill=\"");
    push_str(&mut s, color);
    push_str(&mut s, "\"/>");
    push_str(
        &mut s,
        "<text x=\"4\" y=\"14\" fill=\"#fff\" font-family=\"DejaVu Sans,sans-serif\" font-size=\"11\">build</text>",
    );
    push_str(
        &mut s,
        "<text x=\"42\" y=\"14\" fill=\"#fff\" font-family=\"DejaVu Sans,sans-serif\" font-size=\"11\">",
    );
    push_str(&mut s, label);
    push_str(&mut s, "</text>");
    push_str(&mut s, "</svg>");
    assert(s@ =~= badge_svg_text(label@, color@));
    s
}

} // verus!
