//! Transform and hierarchy engine of a 3D model library.
//!
//! The crate holds the index logic of the engine: an arena hierarchy with a
//! recorded traversal, the skeleton and pose bookkeeping built on it, and the
//! compiler that flattens a component hierarchy for a render loop. Beside it
//! stand the plain descriptions of buffers, textures, materials and meshes
//! that an object is made of.

pub mod bone;
pub mod buffer_accessor;
pub mod buffer_data;
pub mod byte_buffer;
pub mod component;
pub mod example_objects;
pub mod hierarchy;
pub mod instantiable;
pub mod material;
pub mod mesh;
pub mod object;
pub mod primitive;
pub mod render_laws;
pub mod render_recipe;
pub mod skeleton;
pub mod skeleton_pose;
pub mod texture;
pub mod types;
pub mod vertices;

pub use bone::Bone;
pub use buffer_accessor::BufferAccessor;
pub use buffer_data::BufferData;
pub use byte_buffer::ByteBuffer;
pub use component::Component;
pub use example_objects::ExampleVertices;
pub use instantiable::Instantiable;
pub use material::{BaseData, BaseMaterial, Material, PbrMaterial};
pub use mesh::Mesh;
pub use object::Object;
pub use primitive::Primitive;
pub use render_recipe::{MatrixSource, RenderRecipe};
pub use skeleton::Skeleton;
pub use skeleton_pose::{PoseUpdate, SkeletonPose};
pub use texture::Texture;
pub use types::{BufferElementType, MaterialAspect, PrimitiveType, ShortIndex, VertexAttr};
pub use vertices::Vertices;
