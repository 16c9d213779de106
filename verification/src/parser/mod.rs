pub mod mp_types;
pub mod levels;
