pub mod assoc;
pub mod decode;
pub mod laws;
pub mod merge;
pub mod render;
pub mod tree;

pub use decode::{decode_component_diff, decode_fragment_diff, decode_root_diff, DecodeError, Json};
pub use merge::FragmentMerge;
pub use tree::{
    Child, ChildDiff, Component, ComponentDiff, ComponentStatics, Fragment, FragmentDiff,
    MergeError, RenderError, Root, RootDiff, Statics,
};
