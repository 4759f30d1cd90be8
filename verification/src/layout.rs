//! Layout of the packed buffers: strides, columns and codes shared by the host
//! and the device.
use vstd::prelude::*;

verus! {

/// Reaction slots of the inelastic tables: MT 51 to 91 in slots 0 to 40, MT 16
/// and 17 in 41 and 42, MT 22/28/32/33/34 in 43 to 47 and MT
/// 5/23/24/25/37/41/44/45 in 48 to 55.
pub const MT_INELASTIC_COUNT: usize = 56;

/// Slot of the continuum (MT 91).
pub const CONTINUUM_SLOT: usize = 40;

/// Surface that lets a particle through.
pub const BOUNDARY_TRANSMISSION: u32 = 0;

/// Surface that ends the history of a particle crossing it.
pub const BOUNDARY_VACUUM: u32 = 1;

/// Bit pattern of the largest weight (`1000.0`) a history may carry before it
/// is terminated.
pub const FISSION_WEIGHT_CAP_BITS: u64 = 0x408f_4000_0000_0000;

/// Bit pattern of the nudge (`1e-8`) applied past a crossed surface.
pub const REGION_CROSS_EPS_BITS: u64 = 0x3e45_798e_e230_8c3a;

/// Bit pattern of the distance (`1e30`) that stands for no surface hit.
pub const NO_HIT_BITS: u64 = 0x4629_3e59_39a0_8cea;

/// Read-only storage buffers the transport kernel binds.
pub const KERNEL_STORAGE_BUFFER_COUNT: u32 = 181;

/// Secondary photons banked per collision at most.
pub const MAX_PHOTONS_PER_COLLISION: u32 = 16;

/// Fission progeny emitted per fission at most, the continuing walk included.
pub const FISSION_BANK_PROGENY_CAP: u32 = 8;

/// Threads per device workgroup.
pub const WORKGROUP_SIZE: u32 = 64;

/// Values per surface in the surface parameter buffer.
pub const SURFACE_PARAM_COLS: usize = 10;

/// Columns of the per-slot `u32` table.
pub const MT_SLOT_U32_COLS: u32 = 11;

pub const COL_EOUT_KIND: u32 = 0;

pub const COL_EOUT_N_ENERGIES: u32 = 1;

pub const COL_CORR_N_ENERGIES: u32 = 2;

pub const COL_SCATTER_IN_CM: u32 = 3;

pub const COL_KM_N_ENERGIES: u32 = 4;

pub const COL_EVAP_N_ENERGIES: u32 = 5;

pub const COL_NBPS_N_BODIES: u32 = 6;

pub const COL_MAXWELL_N_ENERGIES: u32 = 7;

pub const COL_WATT_N_ENERGIES: u32 = 8;

/// Equally weighted evaporation components; two or more draw a component.
pub const COL_EVAP_N_COMPONENTS: u32 = 9;

/// Equally weighted correlated components; two or more draw a component.
pub const COL_CORR_N_COMPONENTS: u32 = 10;

/// Columns of the per-slot real table.
pub const MT_SLOT_F64_COLS: u32 = 4;

/// Unused column, always zero.
pub const COL_EVAP_U: u32 = 0;

pub const COL_MAXWELL_U: u32 = 1;

pub const COL_WATT_U: u32 = 2;

pub const COL_NBPS_TOTAL_MASS: u32 = 3;

/// Columns of the per-material real table.
pub const MAT_F64_COLS: u32 = 5;

pub const COL_TARGET_MASS: u32 = 0;

pub const COL_TEMPERATURE_K: u32 = 1;

pub const COL_FISSION_A: u32 = 2;

pub const COL_FISSION_B: u32 = 3;

/// Unused column, always zero.
pub const COL_URR_ATOM_DENSITY: u32 = 4;

/// Columns of the per-material coarse-grid table.
pub const COARSE_META_COLS: u32 = 3;

pub const COL_COARSE_GRID_OFFSET: u32 = 0;

pub const COL_COARSE_N: u32 = 1;

pub const COL_COARSE_MT_BASE: u32 = 2;

/// Columns of the per-material fine-grid table.
pub const FINE_META_COLS: u32 = 3;

pub const COL_FINE_GRID_OFFSET: u32 = 0;

pub const COL_FINE_N: u32 = 1;

pub const COL_FINE_NUC_BASE: u32 = 2;

/// Columns of the sparse per-reaction table.
pub const PERMT_META_COLS: u32 = 3;

pub const COL_PERMT_VALUE_OFFSET: u32 = 0;

pub const COL_PERMT_I_START: u32 = 1;

pub const COL_PERMT_N_STORED: u32 = 2;

/// Partial cross sections per nuclide and grid point: elastic, absorption,
/// inelastic, fission.
pub const NUC_PARTIAL_COLS: usize = 4;

/// Columns of the per-nuclide unresolved-resonance table.
pub const URR_META_COLS: usize = 8;
/// `1` where a slab has a probability table.
pub const COL_URR_PRESENT: usize = 0;
/// Energies of the table.
pub const COL_URR_N_ENERGIES: usize = 1;

/// Outgoing-energy laws.
pub const EOUT_KIND_LEVEL: u32 = 0;

pub const EOUT_KIND_CONTINUOUS_TABULAR: u32 = 1;

pub const EOUT_KIND_CORRELATED: u32 = 2;

pub const EOUT_KIND_KALBACH_MANN: u32 = 3;

pub const EOUT_KIND_EVAPORATION: u32 = 4;

pub const EOUT_KIND_NBODY: u32 = 5;

pub const EOUT_KIND_MAXWELL: u32 = 6;

pub const EOUT_KIND_WATT: u32 = 7;

pub const EOUT_KIND_TABULATED: u32 = 8;

/// Marks "no cell".
pub const CELL_NOT_FOUND: u32 = 0xffff_ffff;

/// Marks a cell outside a tally's cell filter.
pub const NOT_IN_TALLY: u32 = 0xffff_ffff;

/// Tally without a mesh.
pub const MESH_NONE: u32 = 0;

/// Tally on a cylindrical mesh; the other non-zero kinds are rectangular.
pub const MESH_CYLINDRICAL: u32 = 3;

/// Score kinds.
pub const SCORE_FLUX: u32 = 0;

pub const SCORE_TOTAL: u32 = 1;

pub const SCORE_ABSORPTION: u32 = 2;

pub const SCORE_PER_MT: u32 = 3;

/// Real words per record of the particle bank.
pub const BANK_F64_STRIDE: usize = 8;

/// `u32` words per record of the particle bank.
pub const BANK_U32_STRIDE: usize = 4;

/// Generation tag of a spilled (n,xn) secondary.
pub const BANK_GEN_NXN_SPILL: u32 = 2;

/// Generation tag of a fission progeny.
pub const BANK_GEN_FISSION: u32 = 1;

/// Columns of the decay-photon per-material table.
pub const DECAY_META_COLS: usize = 3;

} // verus!
