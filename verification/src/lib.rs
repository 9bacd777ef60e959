//! The decisions behind scrolling lyric videos and printable lyric sheets:
//! reading LRC, YRC and TTML lyrics into timed lines, choosing which line is
//! active and focused at a moment, what a frame, a preview and a printed
//! sheet show, and how the FFmpeg tools and drawing backends are driven.
//!
//! - [`lyrics`]: the timed line model and its start order;
//! - [`lrc`], [`yrc`], [`ttml`]: the three lyric formats; [`format`]: which
//!   reader a text goes to;
//! - [`layout`]: active line, focus and instrumental interludes;
//! - [`highlight`]: where sung words sit in a line, in UTF-16 offsets;
//! - [`scene`], [`preview`]: the frame loop and its live previews;
//! - [`printout`]: the printable lyric sheet;
//! - [`library`]: the lyric library screen (sibling files, credits, samples);
//! - [`media`], [`backend`], [`request`]: FFmpeg, drawing backends and JSON
//!   render requests;
//! - [`text`]: the character-level text operations they share; [`xml`]: the
//!   XML reader that TTML documents go through.
pub mod backend;
pub mod format;
pub mod highlight;
pub mod layout;
pub mod library;
pub mod lrc;
pub mod lyrics;
pub mod media;
pub mod preview;
pub mod printout;
pub mod request;
pub mod scene;
pub mod text;
pub mod ttml;
pub mod xml;
pub mod yrc;
