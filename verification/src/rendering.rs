//! Window settings and the decisions a window takes on its events.

use vstd::prelude::*;

verus! {

/// A width and a height in pixels.
pub trait Resolution {
    spec fn spec_width(&self) -> u32;

    spec fn spec_height(&self) -> u32;

    fn width(&self) -> (w: u32)
        ensures
            w == self.spec_width(),
    ;

    fn height(&self) -> (h: u32)
        ensures
            h == self.spec_height(),
    ;
}

impl Resolution for (u32, u32) {
    open spec fn spec_width(&self) -> u32 {
        self.0
    }

    open spec fn spec_height(&self) -> u32 {
        self.1
    }

    fn width(&self) -> (w: u32) {
        self.0
    }

    fn height(&self) -> (h: u32) {
        self.1
    }
}

/// What a window is told by the platform.
#[derive(Clone, Copy, Debug, PartialEq, Eq, Structural)]
pub enum WindowEvent {
    CloseRequested,
    Other,
}

/// A window's title, size and whether it was asked to close.
pub struct Window {
    title: String,
    width: u32,
    height: u32,
    exited: bool,
}

impl Window {
    pub closed spec fn spec_title(&self) -> Seq<char> {
        self.title@
    }

    pub closed spec fn spec_width(&self) -> u32 {
        self.width
    }

    pub closed spec fn spec_height(&self) -> u32 {
        self.height
    }

    pub closed spec fn spec_exited(&self) -> bool {
        self.exited
    }

    /// A visible window titled `title` of size `resolution`.
    pub fn new<R: Resolution>(title: &str, resolution: R) -> (w: Self)
        ensures
            w.spec_title() == title@,
            w.spec_width() == resolution.spec_width(),
            w.spec_height() == resolution.spec_height(),
            !w.spec_exited(),
    {
        Window { title: title.to_owned(), width: resolution.width(), height: resolution.height(), exited: false }
    }

    pub fn title(&self) -> (t: &str)
        ensures
            t@ == self.spec_title(),
    {
        self.title.as_str()
    }

    pub fn width(&self) -> (w: u32)
        ensures
            w == self.spec_width(),
    {
        self.width
    }

    pub fn height(&self) -> (h: u32)
        ensures
            h == self.spec_height(),
    {
        self.height
    }

    /// Whether the window was asked to close.
    pub fn exited(&self) -> (e: bool)
        ensures
            e == self.spec_exited(),
    {
        self.exited
    }

    /// Takes in `event`: a close request ends the event loop. Returns whether
    /// the loop must exit.
    pub fn window_event(&mut self, event: WindowEvent) -> (exit: bool)
        ensures
            exit == (event == WindowEvent::CloseRequested),
            final(self).spec_exited() == (old(self).spec_exited() || exit),
            final(self).spec_title() == old(self).spec_title(),
            final(self).spec_width() == old(self).spec_width(),
            final(self).spec_height() == old(self).spec_height(),
    {
        match event {
            WindowEvent::CloseRequested => {
                self.exited = true;
                true
            },
            WindowEvent::Other => false,
        }
    }
}

} // verus!
