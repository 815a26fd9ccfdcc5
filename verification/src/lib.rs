pub mod broadcast;
pub mod dim;
pub mod error;
pub mod layout;
pub mod op;
pub mod shape;
pub mod strided;
pub mod tensor;

pub use broadcast::{al, bshape_spec, bstride_spec, can_broadcast_to, compatible, max_rank, project_idx, resolve_broadcast, unified_axis, lemma_broadcast_symmetric, lemma_bview_offset, lemma_operand_broadcasts_to_unified};
pub use dim::{lemma_canonical_monotone, lemma_contiguous_single_block, lemma_permuted_not_contiguous, lemma_transpose_permuted, mask_sizes, mask_strides, Dim};
pub use error::{GError, GResult};
pub use layout::{count4, decode4, dominated4, encode4, in_bounds4, offset4, offset_of_flat, pad4_ones, prod_rg, rg_prods_fit, suffix_prods_fit, Layout, MAX_DIM};
pub use strided::{StridedBlocks, StridedIndex};
pub use tensor::{arr, eq_with, map2, map2_elems, map2_ref, mat, same_layout, Distance, Tensor};
pub use op::{conv1d, conv_1d_1s, conv_cell, didx, dot_spec, dst_len_spec, inp_off, inp_row, k_off, k_row, repacked_at, scr_shape, vec_dot, ParamsConv1D, TensorType};
pub use shape::{compute_stride_offset, dims1, dims2, dims3, dims4, select_axis, Axis, Shape, ShapeIter};
