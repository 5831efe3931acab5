//! Reconstructs weekly school timetables from the positioned text of a PDF
//! page, and lays them out for drawing.
//!
//! The text comes as fragments with page coordinates and nothing else: no
//! table, no cells. [`extract`] reads the fragments out of a page's content
//! operations, [`token`] notes what each fragment looks like, [`segment`]
//! parts a page into weeks, [`grid`] finds the columns of the days and the
//! rows of the periods, [`lesson`] reads a lesson out of each cell, and
//! [`student`] looks for the student's name and form. [`config`] styles rooms
//! and corrects lessons by hand, [`processor`] colours the school map, and
//! [`renderer`] lays a week out as a page.
//!
//! Coordinates are whole numbers of thousandths of a point throughout.

pub mod arith;
pub mod config;
pub mod extract;
pub mod grid;
pub mod lesson;
pub mod order;
pub mod parser;
pub mod pattern;
pub mod processor;
pub mod renderer;
pub mod segment;
pub mod student;
pub mod text;
pub mod token;
pub mod words;
