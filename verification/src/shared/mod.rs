//! Shared building blocks: parsing, middleware decisions, cancellation and the SSE transport.
pub mod simd_parsing;
pub mod middleware;
pub mod chain_run;
pub mod sse_optimized;
pub mod cancellation;
pub mod wasm_http;
