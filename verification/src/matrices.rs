pub mod basic_matrix;
pub mod blas_matrix;
pub mod blocked_matrix;
pub mod multithread_matrix;
pub mod one_d_vec_matrix;
pub mod transposed_view_matrix;
