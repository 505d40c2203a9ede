//! Reading Himawari Standard Data (HSD) files: the binary header blocks, the
//! pixel counts, the file names of a full-disk observation, and the integer
//! layout checks of the lookup tables and geometry files used downstream.

pub mod bytes;
pub mod text;
pub mod file_struct;
pub mod reader;
pub mod order;
pub mod names;
pub mod organizer;
pub mod layout;
