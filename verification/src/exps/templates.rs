//! The fixed text of generated CUDA units. The spacing matters: this is what nvcc compiles.
use vstd::prelude::*;

verus! {

/// The header that every generated unit needs.
pub const COMMON_CUH: &'static str = r#"#pragma once
#include "goldilocks_tooling.cuh"
#include "steps.hpp"
#include "goldilocks_trace_layout.cuh"
#include <cstdint>
struct g3 { gl64_t a,b,c; };
__device__ __forceinline__ g3 cg_mul33(g3 x, g3 y){
  gl64_t A=(x.a+x.b)*(y.a+y.b), B=(x.a+x.c)*(y.a+y.c), C=(x.b+x.c)*(y.b+y.c);
  gl64_t D=x.a*y.a, E=x.b*y.b, F=x.c*y.c, G=D-E; g3 r; r.a=(C+G)-F; r.b=(((A+C)-E)-E)-D; r.c=B-G; return r; }
__device__ __forceinline__ g3 cg_mul31(g3 x, gl64_t s){ g3 r; r.a=x.a*s; r.b=x.b*s; r.c=x.c*s; return r; }
__device__ __forceinline__ g3 cg_mul13(gl64_t s, g3 y){ g3 r; r.a=y.a*s; r.b=y.b*s; r.c=y.c*s; return r; }
__device__ __forceinline__ g3 cg_add33(g3 x, g3 y){ g3 r; r.a=x.a+y.a; r.b=x.b+y.b; r.c=x.c+y.c; return r; }
__device__ __forceinline__ g3 cg_add31(g3 x, gl64_t s){ g3 r; r.a=x.a+s; r.b=x.b; r.c=x.c; return r; }
__device__ __forceinline__ g3 cg_add13(gl64_t s, g3 y){ g3 r; r.a=y.a+s; r.b=y.b; r.c=y.c; return r; }
__device__ __forceinline__ g3 cg_sub33(g3 x, g3 y){ g3 r; r.a=x.a-y.a; r.b=x.b-y.b; r.c=x.c-y.c; return r; }
__device__ __forceinline__ g3 cg_sub31(g3 x, gl64_t s){ g3 r; r.a=x.a-s; r.b=x.b; r.c=x.c; return r; }
__device__ __forceinline__ g3 cg_sub13(gl64_t s, g3 y){ g3 r; r.a=s-y.a; r.b=-y.b; r.c=-y.c; return r; }
"#;

/// Opens the launch function of the fixed C interface.
pub const ABI_LAUNCH: &'static str = r#"extern "C" void exps_launch(StepsParams* d_params, gl64_t* q, gl64_t* scratch, uint64_t scratchElems, uint64_t NExt,
    uint64_t off_cm1, uint64_t off_cm2, uint64_t off_cm3, uint64_t off_zi, cudaStream_t stream) {
    launch_gen_"#;

/// Closes it, and opens the scratch function.
pub const ABI_SCRATCH: &'static str = r#"(d_params, q, scratch, scratchElems, NExt, off_cm1, off_cm2, off_cm3, off_zi, stream);
}
extern "C" unsigned long long exps_min_scratch() { return "#;

/// Opens the title of a single-kernel unit.
pub const SINGLE_TITLE: &'static str = r#"// AUTO-GENERATED Q kernel for "#;

/// Closes it, with the header every unit needs.
pub const SINGLE_HEAD: &'static str = r#" (single kernel, no scratch)
#include "gen_common.cuh"
#define OFF(r,c,nr,nc,lyt) getBufferOffset((uint64_t)(r),(uint64_t)(c),(uint64_t)(nr),(uint64_t)(nc),(lyt))
"#;

/// Opens a launcher.
pub const LAUNCH_NAME: &'static str = r#"
void launch_gen_"#;

/// The parameters of a launcher.
pub const LAUNCH_PARAMS: &'static str = r#"(StepsParams* d_params, gl64_t* q, gl64_t* scratch, uint64_t scratchElems, uint64_t NExt,
    uint64_t off_cm1, uint64_t off_cm2, uint64_t off_cm3, uint64_t off_zi, cudaStream_t stream) {
"#;

/// Closes the launcher of a single-kernel unit.
pub const SINGLE_TAIL: &'static str = r#"
}
#undef OFF
"#;

/// Opens a host wrapper.
pub const RUN_NAME: &'static str = r#"extern "C" void run_"#;

/// The parameters of a host wrapper, and the name of its kernel.
pub const RUN_PARAMS: &'static str = r#"(uint64_t grid, uint64_t blk, cudaStream_t stream, StepsParams* d_params,
    gl64_t* q, gl64_t* scratch, uint64_t NExt, uint64_t base,
    uint64_t off_cm1, uint64_t off_cm2, uint64_t off_cm3, uint64_t off_zi) {
  gen_"#;

/// The launch in a host wrapper.
pub const RUN_TAIL: &'static str = r#"<<<grid,blk,0,stream>>>(d_params,q,scratch,NExt,base,off_cm1,off_cm2,off_cm3,off_zi);
}"#;

/// Opens the title of a unit of chunk kernels.
pub const CHUNK_TITLE: &'static str = r#"// AUTO-GENERATED Q chunk kernels "#;

/// Closes it, with the header every unit needs.
pub const CHUNK_HEAD: &'static str = r#"
#include "gen_common.cuh"
#define OFF(r,c,nr,nc,lyt) getBufferOffset((uint64_t)(r),(uint64_t)(c),(uint64_t)(nr),(uint64_t)(nc),(lyt))
"#;

/// Closes a unit of chunk kernels.
pub const CHUNK_TAIL: &'static str = r#"
#undef OFF
"#;

/// Opens the title of a launcher unit.
pub const LAUNCHER_TITLE: &'static str = r#"// AUTO-GENERATED Q launcher for "#;

/// The title goes on with the number of temporaries.
pub const LAUNCHER_TEMPS: &'static str = r#" (cross-boundary temps="#;

/// Closes the title, with the header every unit needs.
pub const LAUNCHER_HEAD: &'static str = r#" chunks)
#include "gen_common.cuh"
"#;

/// Opens the launcher, with a note on its grid.
pub const LAUNCHER_NAME: &'static str = r#"
// adaptive grid: shrink so total_slots*grid*BLK <= scratchElems (per-wave scratch fits the tmp region);
// each chunk kernel computes WAVE=gridDim*blockDim at runtime, so any grid is correct.
void launch_gen_"#;

/// The parameters of the launcher, and its block size.
pub const LAUNCHER_PARAMS: &'static str = r#"(StepsParams* d_params, gl64_t* q, gl64_t* scratch, uint64_t scratchElems, uint64_t NExt,
    uint64_t off_cm1, uint64_t off_cm2, uint64_t off_cm3, uint64_t off_zi, cudaStream_t stream) {
  const uint64_t BLK = "#;

/// The grid of the launcher.
pub const LAUNCHER_GRID: &'static str = r#"ull;
  uint64_t grid = "#;

/// The grid is shrunk to the scratch.
pub const LAUNCHER_FITS: &'static str = r#"ull ? (scratchElems / ("#;

/// The loop over waves.
pub const LAUNCHER_LOOP: &'static str = r#"ull*BLK)) : 512ull;
  if (grid > 512ull) grid = 512ull;
  if (grid < 1ull) grid = 1ull;
  const uint64_t WAVE = grid * BLK;
  for (uint64_t base=0; base<NExt; base+=WAVE) {
"#;

/// Closes the loop and the launcher.
pub const LAUNCHER_TAIL: &'static str = r#"
  }
}
"#;

/// The parameters and locals of a single kernel.
pub const KERNEL_SINGLE: &'static str = r#"_kernel(const StepsParams* __restrict__ P, gl64_t* __restrict__ q,
    uint64_t NExt, uint64_t off_cm1, uint64_t off_cm2, uint64_t off_cm3, uint64_t off_zi) {
  const uint64_t MASK = NExt-1;
  const gl64_t* __restrict__ aux=(const gl64_t*)P->aux_trace; const gl64_t* __restrict__ cst=(const gl64_t*)P->pConstPolsExtendedTreeAddress;
  const gl64_t* __restrict__ ch=(const gl64_t*)P->challenges; const gl64_t* __restrict__ av=(const gl64_t*)P->airValues;
  const gl64_t* __restrict__ agv=(const gl64_t*)P->airgroupValues; const gl64_t* __restrict__ pub=(const gl64_t*)P->publicInputs;
  for (uint64_t row=blockIdx.x*blockDim.x+threadIdx.x; row<NExt; row+=gridDim.x*blockDim.x) {
"#;

/// Closes a single kernel.
pub const KERNEL_TAIL: &'static str = r#"
  }
}"#;

/// The parameters and locals of a chunk kernel.
pub const KERNEL_CHUNK: &'static str = r#"(const StepsParams* __restrict__ P, gl64_t* __restrict__ q, gl64_t* __restrict__ scratch,
    uint64_t NExt, uint64_t tileBase, uint64_t off_cm1, uint64_t off_cm2, uint64_t off_cm3, uint64_t off_zi) {
  const uint64_t MASK = NExt-1; const uint64_t WAVE = (uint64_t)gridDim.x*blockDim.x;
  const uint64_t lo_ = blockIdx.x*blockDim.x + threadIdx.x; const uint64_t row = tileBase + lo_;
  if (row >= NExt) return;
  const gl64_t* __restrict__ aux=(const gl64_t*)P->aux_trace; const gl64_t* __restrict__ cst=(const gl64_t*)P->pConstPolsExtendedTreeAddress;
  const gl64_t* __restrict__ ch=(const gl64_t*)P->challenges; const gl64_t* __restrict__ av=(const gl64_t*)P->airValues;
  const gl64_t* __restrict__ agv=(const gl64_t*)P->airgroupValues; const gl64_t* __restrict__ pub=(const gl64_t*)P->publicInputs;
"#;

/// The parameters of a declared host wrapper.
pub const DECL_PARAMS: &'static str = r#"(uint64_t, uint64_t, cudaStream_t, StepsParams*, gl64_t*, gl64_t*, uint64_t, uint64_t, uint64_t, uint64_t, uint64_t, uint64_t);"#;

/// The arguments of a call of a host wrapper.
pub const CALL_PARAMS: &'static str = r#"(grid, BLK, stream, d_params, q, scratch, NExt, base, off_cm1, off_cm2, off_cm3, off_zi);"#;

/// Opens the launch of a single kernel.
pub const SINGLE_LAUNCH: &'static str = r#"  (void)scratch; (void)scratchElems; gen_"#;

/// Closes it.
pub const SINGLE_LAUNCH_TAIL: &'static str = r#"_kernel<<<512,256,0,stream>>>(d_params,q,NExt,off_cm1,off_cm2,off_cm3,off_zi);"#;

/// Stores an extension element, plain layout.
pub const STORE_FLAT_EXT: &'static str = r#"    q[OFF(row,0,NExt,3,Layout::ColMajor)]=qq.a; q[OFF(row,1,NExt,3,Layout::ColMajor)]=qq.b; q[OFF(row,2,NExt,3,Layout::ColMajor)]=qq.c;"#;

/// Stores a base element, plain layout.
pub const STORE_FLAT_BASE: &'static str = r#"    q[OFF(row,0,NExt,3,Layout::ColMajor)]=qq; q[OFF(row,1,NExt,3,Layout::ColMajor)]=gl64_t(uint64_t(0)); q[OFF(row,2,NExt,3,Layout::ColMajor)]=gl64_t(uint64_t(0));"#;

/// Stores an extension element, tiled layout.
pub const STORE_TILED_EXT: &'static str = r#"    q[OFF(row,0,NExt,3,Layout::ColMajorTiled)]=qq.a; q[OFF(row,1,NExt,3,Layout::ColMajorTiled)]=qq.b; q[OFF(row,2,NExt,3,Layout::ColMajorTiled)]=qq.c;"#;

/// Stores a base element, tiled layout.
pub const STORE_TILED_BASE: &'static str = r#"    q[OFF(row,0,NExt,3,Layout::ColMajorTiled)]=qq; q[OFF(row,1,NExt,3,Layout::ColMajorTiled)]=gl64_t(uint64_t(0)); q[OFF(row,2,NExt,3,Layout::ColMajorTiled)]=gl64_t(uint64_t(0));"#;

/// Opens a kernel.
pub const KERNEL_NAME: &'static str = r#"__global__ void gen_"#;

} // verus!
