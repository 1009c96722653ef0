//! Squiggle: the plot logic of an interactive waveform viewer that holds no
//! floating point: axis vocabulary, tick budgeting and label tidying, the
//! ribbon topology a polyline is drawn with, and the demo's command line.

pub mod axis;
pub mod ribbon;
pub mod text;
pub mod demo;
