//! Window-builder and log-panel models.
//!
//! Rendering itself is outside work; what the library owns is the data a
//! window is configured from — title, transparency, an icon as raw RGBA
//! pixels — with the invariant that an icon's pixel buffer matches its
//! dimensions, and the row selection a log panel shows.

use vstd::prelude::*;
use crate::command::{Level, LogMessageBuf};
use crate::log::LogBuffer;

verus! {

/// A window icon as raw RGBA pixels: four bytes per pixel, row-major.
#[derive(Debug, Clone, PartialEq)]
pub struct Icon {
    pub rgba: Vec<u8>,
    pub width: u32,
    pub height: u32,
}

/// The pixel buffer holds exactly four bytes per pixel.
pub open spec fn icon_wf(icon: Icon) -> bool {
    icon.rgba@.len() == 4 * icon.width * icon.height
}

/// What a native window is configured from.
#[derive(Debug, Clone, PartialEq)]
pub struct WindowOptions {
    pub transparent: bool,
    pub icon: Option<Icon>,
}

/// A configured icon, when present, is well-formed.
pub open spec fn options_wf(o: WindowOptions) -> bool {
    o.icon matches Some(icon) ==> icon_wf(icon)
}

/// Collects what a native window needs before it is opened.
#[derive(Debug)]
pub struct Builder {
    app_name: String,
    options: WindowOptions,
}

impl Builder {
    /// The window title.
    pub closed spec fn spec_app_name(&self) -> Seq<char> {
        self.app_name@
    }

    /// The collected options.
    pub closed spec fn spec_options(&self) -> WindowOptions {
        self.options
    }

    /// Start collecting options for a window with this title; it begins
    /// transparent and without an icon.
    pub fn new(app_name: String) -> (r: Builder)
        ensures
            r.spec_app_name() == app_name@,
            r.spec_options().transparent,
            r.spec_options().icon is None,
            options_wf(r.spec_options()),
    {
        Builder { app_name, options: WindowOptions { transparent: true, icon: None } }
    }

    /// Set or clear the window icon.
    pub fn with_icon(self, icon: Option<Icon>) -> (r: Builder)
        requires
            icon matches Some(i) ==> icon_wf(i),
        ensures
            r.spec_app_name() == self.spec_app_name(),
            r.spec_options().transparent == self.spec_options().transparent,
            r.spec_options().icon == icon,
            options_wf(r.spec_options()),
    {
        Builder {
            app_name: self.app_name,
            options: WindowOptions { transparent: self.options.transparent, icon },
        }
    }

    /// The window title, as collected so far.
    pub fn app_name(&self) -> (r: &String)
        ensures
            r@ == self.spec_app_name(),
    {
        &self.app_name
    }

    /// The options, as collected so far.
    pub fn options(&self) -> (r: &WindowOptions)
        ensures
            *r == self.spec_options(),
    {
        &self.options
    }

    /// Replace the collected options wholesale.
    pub fn with_option(self, option: WindowOptions) -> (r: Builder)
        requires
            options_wf(option),
        ensures
            r.spec_app_name() == self.spec_app_name(),
            r.spec_options() == option,
            options_wf(r.spec_options()),
    {
        Builder { app_name: self.app_name, options: option }
    }
}

/// The table colour of a log row, as red, green and blue, by the record's
/// severity.
pub open spec fn spec_level_color(l: Level) -> (u8, u8, u8) {
    match l {
        Level::Trace => (255u8, 0u8, 255u8),
        Level::Debug => (0u8, 0u8, 255u8),
        Level::Info => (255u8, 255u8, 255u8),
        Level::Warn => (255u8, 255u8, 0u8),
        Level::Error => (255u8, 0u8, 0u8),
    }
}

/// The table colour of a log row by its severity: magenta for trace, blue
/// for debug, white for info, yellow for warnings, red for errors.
pub fn level_color(l: Level) -> (r: (u8, u8, u8))
    ensures
        r == spec_level_color(l),
{
    match l {
        Level::Trace => (255, 0, 255),
        Level::Debug => (0, 0, 255),
        Level::Info => (255, 255, 255),
        Level::Warn => (255, 255, 0),
        Level::Error => (255, 0, 0),
    }
}

/// Shows the buffered log records as a table; rendering belongs to the
/// embedding program, the selection of rows is decided here.
#[derive(Debug)]
pub struct LogPanel {
}

impl LogPanel {
    /// A fresh panel.
    pub fn new() -> (r: LogPanel)
        ensures
            true,
    {
        LogPanel {  }
    }

    /// The records the panel shows, oldest first: a snapshot of the whole
    /// buffer.
    pub fn rows<'a>(&self, buffer: &'a LogBuffer) -> (r: &'a Vec<LogMessageBuf>)
        ensures
            r@ == buffer@,
    {
        crate::log::read_global_buffer(buffer)
    }
}

} // verus!
