//! Retopology algorithms: the decisions of decimation and of quad conversion.
pub mod decimation;
pub mod quad_dominant;
