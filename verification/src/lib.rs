//! Verified lowering decisions of an HDL simulator's code generator.

pub mod ir;
pub mod packed;
pub mod text;
pub mod design;
pub mod codegen;
pub mod names;
pub mod locals;
pub mod scopes;
pub mod processes;
pub mod signatures;
pub mod virtual_interfaces;
pub mod nets;
pub mod containers;
pub mod patterns;
pub mod lvalues;
pub mod fixed_arrays;
pub mod initialization;
pub mod packed_elements;
pub mod structural;
pub mod contracts;
pub mod passes;
pub mod expressions;
pub mod vi_descriptors;
pub mod function_bodies;
pub mod fixed_patterns;
pub mod gates;
pub mod net_groups;
