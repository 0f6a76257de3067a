//! Whether a composited frame is drawn, and when.
//!
//! A minimised window is nobody looking. What arrives meanwhile is kept, so
//! that the window comes back to the picture as it is then.
use vstd::prelude::*;

verus! {

/// What the preview is drawn from, and whether anyone is looking at it.
///
/// `F` is what has to be kept of a frame to draw it later.
pub struct PreviewSurface<F> {
    pub visible: bool,
    /// The last frame that arrived while nobody was looking.
    pub pending: Option<F>,
    /// Whether there is a new picture that has not been reported.
    pub drawn: bool,
}

impl<F> PreviewSurface<F> {
    /// This, once a frame has arrived.
    pub open spec fn with(self, frame: F) -> Self {
        if self.visible {
            self
        } else {
            PreviewSurface { pending: Some(frame), ..self }
        }
    }

    /// This, once it is known whether anyone is looking.
    pub open spec fn seen(self, visible: bool) -> Self {
        PreviewSurface {
            visible,
            pending: if visible {
                None
            } else {
                self.pending
            },
            ..self
        }
    }

    /// What is drawn on learning whether anyone is looking.
    pub open spec fn owed(self, visible: bool) -> Option<F> {
        if visible {
            self.pending
        } else {
            None
        }
    }

    /// Starts with someone looking, so that no first frame is held back.
    pub fn new() -> (r: Self)
        ensures
            r.visible,
            r.pending is None,
            !r.drawn,
    {
        PreviewSurface { visible: true, pending: None, drawn: false }
    }

    /// Takes one composited frame. Answers with it where it is to be drawn
    /// now, and otherwise keeps it for when someone is looking.
    pub fn submit(&mut self, frame: F) -> (r: Option<F>)
        ensures
            *final(self) == old(self).with(frame),
            r == (if old(self).visible {
                Some(frame)
            } else {
                None
            }),
    {
        if self.visible {
            Some(frame)
        } else {
            self.pending = Some(frame);
            None
        }
    }

    /// Takes what came of drawing: a picture that was drawn is reported, and
    /// one that could not be is not.
    pub fn present(&mut self, ok: bool)
        ensures
            *final(self) == (PreviewSurface { drawn: old(self).drawn || ok, ..*old(self) }),
    {
        if ok {
            self.drawn = true;
        }
    }

    /// Tells this whether anyone is looking. Coming back into view answers
    /// with what arrived while nobody was, to be drawn now.
    pub fn set_visible(&mut self, visible: bool) -> (r: Option<F>)
        ensures
            *final(self) == old(self).seen(visible),
            r == old(self).owed(visible),
    {
        self.visible = visible;
        if visible {
            self.pending.take()
        } else {
            None
        }
    }

    /// Whether there is a new picture to report, which there then is not any
    /// more.
    pub fn take_drawn(&mut self) -> (r: bool)
        ensures
            r == old(self).drawn,
            *final(self) == (PreviewSurface { drawn: false, ..*old(self) }),
    {
        let drawn: bool = self.drawn;
        self.drawn = false;
        drawn
    }
}

impl<F> PreviewSurface<F> {
    /// Takes what the compositor has made. Every picture is reported, and with
    /// the texture where it has been drawn into since the last; anything else
    /// is not.
    pub fn count(&mut self, picture: bool, texture: u64) -> (r: Option<Option<u64>>)
        ensures
            picture ==> r == Some(
                if old(self).drawn {
                    Some(texture)
                } else {
                    None
                },
            ) && *final(self) == (PreviewSurface { drawn: false, ..*old(self) }),
            !picture ==> r is None && *final(self) == *old(self),
    {
        if !picture {
            return None;
        }
        if self.take_drawn() {
            Some(Some(texture))
        } else {
            Some(None)
        }
    }
}

/// What a frame handed to the preview comes to.
#[derive(Clone, Copy, Debug, PartialEq, Eq, Structural)]
pub enum Submitted {
    Taken,
    InvalidFrame,
}

/// What a frame handed to the preview comes to: one that could not be copied
/// or drawn is refused, and one that was only partly written is let go by.
/// `presented` is whether drawing it worked, for a frame that was to be drawn.
pub fn submitted(copied: bool, tail_unwritten: bool, presented: bool) -> (r: Submitted)
    ensures
        r is InvalidFrame <==> !copied || (!tail_unwritten && !presented),
{
    if !copied {
        Submitted::InvalidFrame
    } else if tail_unwritten || presented {
        Submitted::Taken
    } else {
        Submitted::InvalidFrame
    }
}

/// How many bytes of a picture of four bytes a pixel are written into a
/// texture, or `None` for one that does not fit it: of another size, or with
/// rows that are short or missing.
pub fn bgra_rows(
    size: [u32; 2],
    width: u32,
    height: u32,
    stride: usize,
    available: usize,
) -> (r: Option<usize>)
    requires
        stride * size[1] <= usize::MAX,
        size[0] * 4 <= usize::MAX,
    ensures
        r == (if width == size[0] && height == size[1] && available >= stride * height && stride
            >= width * 4 {
            Some((stride * height) as usize)
        } else {
            None
        }),
{
    if width != size[0] || height != size[1] {
        return None;
    }
    let needed: usize = stride * height as usize;
    if available < needed || stride < width as usize * 4 {
        None
    } else {
        Some(needed)
    }
}

/// Coming back into view draws the last frame that arrived unseen, however
/// many did, and draws it once.
pub proof fn law_the_last_unseen_frame_is_drawn<F>(
    surface: PreviewSurface<F>,
    first: F,
    last: F,
)
    requires
        !surface.visible,
    ensures
        surface.with(first).with(last).owed(true) == Some(last),
        surface.with(first).with(last).seen(true).owed(true) is None,
{
}

/// Nothing is kept of a frame that someone was there to see.
pub proof fn law_a_seen_frame_is_not_kept<F>(surface: PreviewSurface<F>, frame: F)
    requires
        surface.visible,
    ensures
        surface.with(frame).pending == surface.pending,
{
}

/// A frame that arrives unseen is kept, and is owed once someone looks; looking
/// away keeps what is owed, and neither touches whether a picture was drawn.
pub proof fn law_what_is_unseen_is_owed<F>(surface: PreviewSurface<F>, frame: F, visible: bool)
    ensures
        !surface.visible ==> surface.with(frame).pending == Some(frame),
        surface.with(frame).visible == surface.visible,
        surface.with(frame).drawn == surface.drawn,
        surface.seen(visible).visible == visible,
        surface.seen(visible).drawn == surface.drawn,
        surface.seen(true).pending is None,
        surface.seen(false).pending == surface.pending,
        surface.owed(true) == surface.pending,
        surface.owed(false) is None,
{
}

} // verus!
