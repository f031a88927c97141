//! Verified building blocks for reading and writing SSBH binary data:
//! vertex adjacency, bit-level streams, animation compression layouts and
//! mesh index buffers.
pub mod bytes;
pub mod float_bits;
pub mod adj_data;
pub mod anim_data;
pub mod mesh_data;
pub mod hlpb_data;
pub mod matl_data;
