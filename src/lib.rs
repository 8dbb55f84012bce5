// Asset declarations collected at compile time: the descriptor model, the
// web font request URL, source resolution, the per-session registry that
// gives each distinct asset one served location, and the self-delimiting
// records that carry registered assets into the compiled artifact.

pub mod builder;
pub mod decode;
pub mod descriptor;
pub mod font;
pub mod record;
pub mod registry;
pub mod sealed;
pub mod session;
pub mod source;
pub mod text;
