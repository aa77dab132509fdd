//! Variant linkage analysis: a canonical model of genomic edits built from two
//! textual notations, a per-read evidence matcher, and a linkage classifier
//! over aggregated read counts.

pub mod digits;
mod link;
mod validate;
pub mod variant;

pub use link::Link;
pub use link::Linkage;
pub use validate::AlignEntry;
pub use validate::EntryKind;
pub use validate::Record;
pub use validate::ValidateOptions;
pub use validate::VariantValidate;
pub use variant::Edit;
pub use variant::Format as VarFormat;
pub use variant::Variant;
