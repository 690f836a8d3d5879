//! The state of a window showing an image, and how it answers to input.
//!
//! The window itself, the event pump and the drawing live with the caller,
//! which hands each event to [`Display::handle`] and ends its loop once
//! `should_end` is set.
use crate::image::Image;
use vstd::prelude::*;

verus! {

/// A change to the window that shows the image.
#[derive(Clone, Copy, Debug, PartialEq, Eq, Structural)]
pub enum WindowEvent {
    /// The window now has this width and height.
    SizeChanged(i32, i32),
    /// Anything else that happened to the window.
    Other,
}

/// The input a display answers to.
#[derive(Clone, Copy, Debug, PartialEq, Eq, Structural)]
pub enum Event {
    /// The user asked to close the program.
    Quit,
    /// The Escape key went down.
    EscapePressed,
    /// Something happened to the window.
    Window(WindowEvent),
    /// Any other input.
    Other,
}

/// An image on show, with the size of its window and whether to stop.
pub struct Display {
    pub image: Image,
    pub width: u32,
    pub height: u32,
    pub should_end: bool,
}

impl Display {
    /// Starts showing `image` in a window of the image's size.
    pub fn new(image: Image) -> (d: Display)
        ensures
            d.image == image,
            d.width == image.width(),
            d.height == image.height(),
            !d.should_end,
    {
        let width = image.width();
        let height = image.height();
        Display { image, width, height, should_end: false }
    }

    /// Answers to one event: Quit and Escape end the display, window events
    /// go to [`Display::handle_window`], anything else is ignored.
    pub fn handle(&mut self, event: Event)
        ensures
            final(self).image == old(self).image,
            match event {
                Event::Quit | Event::EscapePressed => {
                    &&& final(self).should_end
                    &&& final(self).width == old(self).width
                    &&& final(self).height == old(self).height
                },
                Event::Window(e) => window_handled(*old(self), *final(self), e),
                Event::Other => {
                    &&& final(self).should_end == old(self).should_end
                    &&& final(self).width == old(self).width
                    &&& final(self).height == old(self).height
                },
            },
    {
        match event {
            Event::Quit | Event::EscapePressed => {
                self.should_end = true;
            },
            Event::Window(win_event) => {
                self.handle_window(win_event);
            },
            Event::Other => {},
        }
    }

    /// Answers to a window event: a new size is taken over, anything else
    /// is ignored. A size is read as unsigned, as the window system reports
    /// no negative sizes.
    pub fn handle_window(&mut self, event: WindowEvent)
        ensures
            final(self).image == old(self).image,
            window_handled(*old(self), *final(self), event),
    {
        match event {
            WindowEvent::SizeChanged(x, y) => {
                self.width = x as u32;
                self.height = y as u32;
            },
            WindowEvent::Other => {},
        }
    }
}

/// How a window event takes a display from `before` to `after`.
pub open spec fn window_handled(before: Display, after: Display, event: WindowEvent) -> bool {
    &&& after.should_end == before.should_end
    &&& match event {
        WindowEvent::SizeChanged(x, y) => after.width == x as u32 && after.height == y as u32,
        WindowEvent::Other => after.width == before.width && after.height == before.height,
    }
}

} // verus!
