//! Asset ingestion for a small real-time renderer.
//!
//! The crate turns two on-disk formats into plain data that an uploader can
//! hand to the GPU: a line-oriented mesh description (positions, texture
//! coordinates, normals and triangular faces) and a block-compressed texture
//! container (a fixed header followed by a chain of mipmap levels).
//!
//! * [`mesh_text`] reads a mesh description into its pools and faces;
//!   [`text`] cuts the text into lines and tokens, and [`scalar`] holds the
//!   grammar of the reals that stand in it.
//! * [`assembler`] looks up what the faces name and lays the corners out as
//!   the vertices of a [`model::Mesh`].
//! * [`canonical`] writes a description back as text, and shows that reading
//!   that text gives the description back.
//! * [`texture`] reads the header of a texture container and lays out its
//!   mipmap levels over the payload.
//! * [`model`] and [`shader`] hold what is decided around the GPU objects of
//!   a model and of a shader program.
//!
//! Nothing here touches a file or the GPU: every function takes bytes or
//! plain values and gives plain values back.

pub mod ascii;
pub mod assembler;
pub mod canonical;
pub mod mesh_text;
pub mod model;
pub mod scalar;
pub mod shader;
pub mod text;
pub mod texture;
pub mod vertex;
