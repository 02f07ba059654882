pub mod additions;
pub mod curve;
pub mod digits;
pub mod field_model;
pub mod group_model;
pub mod msm;
