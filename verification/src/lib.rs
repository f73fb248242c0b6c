//! Verified core of a modular sound-graph synthesiser: identifiers,
//! connection graphs and their validation, state tables and the states of
//! processors and inputs, object arguments, the selection, modes and
//! keyboard navigation of the graph editor, and the editing model behind
//! the expression layout.

pub mod uniqueid;
pub mod numberinput;
pub mod numbersource;
pub mod soundinput;
pub mod soundprocessor;
pub mod soundsource;
pub mod path;
pub mod connectionerror;
pub mod soundgraphdescription;
pub mod gridspan;
pub mod statetable;
pub mod context;
pub mod keyrange;
pub mod soundengine;
pub mod soundgraph;
pub mod ast;
pub mod expressiongraph;
pub mod diagnostics;
pub mod graphobject;
pub mod textscan;
pub mod arguments;
pub mod graphuistate;
pub mod expressionnodeui;
pub mod numbersourceui;
pub mod draganddrop;
pub mod lexicallayout;
pub mod cursor;
pub mod soundgraphlayout;
pub mod keyboardnav;
pub mod globalinteractions;
