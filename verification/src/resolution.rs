//! The viewport's resolution badge: which texture size is shown and which
//! one is being produced, as the text the badge displays.

use vstd::prelude::*;

use crate::text::{decimal_text, push_decimal_u32};

verus! {

/// Texture sizes of a viewport slot and which refinement passes are pending.
#[derive(Debug, Clone, Copy, PartialEq, Eq)]
pub struct ResolutionStatus {
    /// Texture dims of the frame currently displayed (None = no frame yet).
    pub current_tex_dims: Option<(u32, u32)>,
    /// Configured fast-preview dims for this slot.
    pub low_tex_dims: Option<(u32, u32)>,
    /// Configured full-quality dims for this slot.
    pub high_tex_dims: Option<(u32, u32)>,
    pub low_pending: bool,
    pub high_pending: bool,
}

/// The size being produced: the fast preview's while it is pending, else
/// the full-quality one's while that is pending, else none.
pub open spec fn target_dims_spec(res: ResolutionStatus) -> Option<(u32, u32)> {
    if res.low_pending {
        res.low_tex_dims
    } else if res.high_pending {
        res.high_tex_dims
    } else {
        None
    }
}

/// A texture size as the badge writes it: `"{w}px"` for a square,
/// `"{w}x{h}px"` otherwise.
pub open spec fn tex_res_text(w: u32, h: u32) -> Seq<char> {
    if w == h {
        decimal_text(w as int) + "px"@
    } else {
        decimal_text(w as int) + "x"@ + decimal_text(h as int) + "px"@
    }
}

/// The badge text: the target size alone (`"-> …"`) before any frame, the
/// current and target sizes while they differ (`"… -> …"`), else the
/// current size; no badge without either.
pub open spec fn badge_label_spec(res: ResolutionStatus) -> Option<Seq<char>> {
    match (res.current_tex_dims, target_dims_spec(res)) {
        (None, Some((tw, th))) => Some("-> "@ + tex_res_text(tw, th)),
        (Some((cw, ch)), Some((tw, th))) => if (cw, ch) != (tw, th) {
            Some(tex_res_text(cw, ch) + " -> "@ + tex_res_text(tw, th))
        } else {
            Some(tex_res_text(cw, ch))
        },
        (Some((cw, ch)), None) => Some(tex_res_text(cw, ch)),
        (None, None) => None,
    }
}

impl ResolutionStatus {
    /// The size being produced (see [`target_dims_spec`]).
    pub fn target_dims(&self) -> (r: Option<(u32, u32)>)
        ensures
            r == target_dims_spec(*self),
    {
        if self.low_pending {
            self.low_tex_dims
        } else if self.high_pending {
            self.high_tex_dims
        } else {
            None
        }
    }
}

fn push_tex_res(s: &mut String, w: u32, h: u32)
    ensures
        final(s)@ == old(s)@ + tex_res_text(w, h),
{
    push_decimal_u32(s, w);
    if w != h {
        s.append("x");
        push_decimal_u32(s, h);
    }
    s.append("px");
    assert(final(s)@ =~= old(s)@ + tex_res_text(w, h));
}

/// A texture size as the badge writes it (see [`tex_res_text`]).
pub fn fmt_tex_res(w: u32, h: u32) -> (r: String)
    ensures
        r@ == tex_res_text(w, h),
{
    let mut s = String::new();
    push_tex_res(&mut s, w, h);
    assert(s@ =~= tex_res_text(w, h));
    s
}

/// The resolution badge's text (see [`badge_label_spec`]).
pub fn resolution_badge_label(res: &ResolutionStatus) -> (r: Option<String>)
    ensures
        match r {
            Some(s) => badge_label_spec(*res) == Some(s@),
            None => badge_label_spec(*res) is None,
        },
{
    let target = res.target_dims();
    match (res.current_tex_dims, target) {
        (None, Some((tw, th))) => {
            let mut s = String::from_str("-> ");
            push_tex_res(&mut s, tw, th);
            Some(s)
        },
        (Some((cw, ch)), Some((tw, th))) => {
            let mut s = String::new();
            push_tex_res(&mut s, cw, ch);
            if cw != tw || ch != th {
                s.append(" -> ");
                push_tex_res(&mut s, tw, th);
            }
            assert(badge_label_spec(*res) == Some(s@)) by {
                assert(s@ =~= (if (cw, ch) != (tw, th) {
                    tex_res_text(cw, ch) + " -> "@ + tex_res_text(tw, th)
                } else {
                    tex_res_text(cw, ch)
                }));
            }
            Some(s)
        },
        (Some((cw, ch)), None) => {
            let mut s = String::new();
            push_tex_res(&mut s, cw, ch);
            assert(s@ =~= tex_res_text(cw, ch));
            Some(s)
        },
        (None, None) => None,
    }
}

} // verus!
