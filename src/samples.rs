//! Small routines, one module per theme, that show the code patterns the rules
//! look for, each in a verified form.
pub mod good_code;
pub mod documentation;
pub mod naming;
pub mod layout;
pub mod shapes;
