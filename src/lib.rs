//! Decoders for the asset formats of the Build engine: group archives
//! (`grp`), palettes (`art`), tile sheets (`bitmap`) and level maps
//! (`world`). Each decoder either returns everything its input describes or
//! an error, never a part.

pub mod art;
pub mod bitmap;
pub mod bytes;
pub mod error;
pub mod grp;
pub mod path;
pub mod world;
