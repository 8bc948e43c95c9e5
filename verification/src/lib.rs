pub mod affine;
pub mod agreement;
pub mod artifact;
pub mod ast;
pub mod auth;
pub mod bc;
pub mod bench;
pub mod bigint;
pub mod binary64;
pub mod builder;
pub mod builtins;
pub mod bytes;
pub mod codec;
pub mod codegen;
pub mod compile;
pub mod conduct;
pub mod copies;
pub mod defaults;
pub mod effects;
pub mod engine;
pub mod entries;
pub mod error;
pub mod gc;
pub mod hashing;
pub mod hexes;
pub mod host;
pub mod interp;
pub mod json;
pub mod layout;
pub mod loops;
pub mod machine;
pub mod meaning;
pub mod modifier;
pub mod moves;
pub mod numbers;
pub mod opcodes;
pub mod ops;
pub mod optimize;
pub mod programs;
pub mod readback;
pub mod reckoning;
pub mod repeat;
pub mod run;
pub mod server;
pub mod steady;
pub mod storage;
pub mod tables;
pub mod text;
pub mod token;
pub mod typecodec;
pub mod value;
pub mod wire;
