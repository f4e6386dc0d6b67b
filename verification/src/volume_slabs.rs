//! Planning of the GPU volume sampling: a `(resolution + 1)^3` grid of
//! 8-byte samples is read back in one pass when it fits in one storage
//! binding, and otherwise in Z-slabs of whole layers.
use vstd::prelude::*;

verus! {

/// Info about a multi-slab volume that doesn't fit in a single GPU binding.
#[derive(Debug, Clone, Copy, PartialEq, Eq, Structural)]
pub struct SlabInfo {
    /// Total number of Z-layers (resolution + 1).
    pub total_z: u32,
    /// Maximum Z-layers per slab given the binding limit.
    pub max_z_per_slab: u32,
}

/// Vertices per axis of a grid of `resolution` cells per axis.
pub open spec fn axis_vertices(resolution: u32) -> int {
    resolution + 1
}

/// Samples in one Z-layer.
pub open spec fn layer_elements(resolution: u32) -> int {
    axis_vertices(resolution) * axis_vertices(resolution)
}

/// Samples in the whole volume.
pub open spec fn volume_elements(resolution: u32) -> int {
    layer_elements(resolution) * axis_vertices(resolution)
}

/// Samples that fit in a storage binding of `max_binding` bytes.
pub open spec fn binding_elements(max_binding: u64) -> int {
    max_binding as int / 8
}

/// Whole layers per slab: as many as fit in the binding, at least one.
pub open spec fn layers_per_slab(resolution: u32, max_binding: u64) -> int {
    let n = binding_elements(max_binding) / layer_elements(resolution);
    if n < 1 { 1 } else { n }
}

/// Decides how a volume of `resolution` cells per axis is sampled given
/// the device's largest storage binding in bytes: `Ok` with the number of
/// samples when one pass holds the whole volume, otherwise `Err` with the
/// layer count and the layers per slab.
pub fn plan_volume_dispatch(resolution: u32, max_binding: u64) -> (r: Result<u64, SlabInfo>)
    requires
        volume_elements(resolution) <= u64::MAX,
    ensures
        volume_elements(resolution) <= binding_elements(max_binding) ==> r == Ok::<u64, SlabInfo>(
            volume_elements(resolution) as u64,
        ),
        volume_elements(resolution) > binding_elements(max_binding) ==> r == Err::<u64, SlabInfo>(
            SlabInfo {
                total_z: axis_vertices(resolution) as u32,
                max_z_per_slab: layers_per_slab(resolution, max_binding) as u32,
            },
        ),
        r is Err ==> 1 <= r->Err_0.max_z_per_slab <= r->Err_0.total_z,
{
    let v: u64 = resolution as u64 + 1;
    proof {
        assert(v <= u32::MAX) by (nonlinear_arith)
            requires
                v * v * v <= u64::MAX,
                v >= 1,
        ;
        assert(1 <= v * v) by (nonlinear_arith)
            requires
                v >= 1,
        ;
        assert(v * v <= v * v * v) by (nonlinear_arith)
            requires
                v >= 1,
        ;
    }
    let layer: u64 = v * v;
    let total: u64 = layer * v;
    let max_elements: u64 = max_binding / 8;
    if total <= max_elements {
        Ok(total)
    } else {
        let per: u64 = max_elements / layer;
        let per: u64 = if per < 1 { 1 } else { per };
        proof {
            let q = max_elements / layer;
            assert(q * layer <= max_elements) by (nonlinear_arith)
                requires
                    layer >= 1,
                    q == max_elements / layer,
            ;
            assert(q < v) by (nonlinear_arith)
                requires
                    q * layer <= max_elements,
                    max_elements < layer * v,
                    layer >= 1,
            ;
        }
        Err(SlabInfo { total_z: v as u32, max_z_per_slab: per as u32 })
    }
}

/// Z-offset and layer count of slab `i` when `total_z` layers are cut
/// into slabs of at most `max_z` layers, front to back.
pub open spec fn slab_at(total_z: int, max_z: int, i: int) -> (int, int) {
    let start = i * max_z;
    let rest = total_z - start;
    (start, if rest < max_z { rest } else { max_z })
}

/// Number of slabs: `ceil(total_z / max_z)`.
pub open spec fn slab_count(total_z: int, max_z: int) -> int {
    (total_z + max_z - 1) / max_z
}

/// The slabs `(z_offset, z_count)` that cover `total_z` layers, front to
/// back, each of `max_z` layers except possibly the last.
pub fn plan_slabs(total_z: u32, max_z: u32) -> (slabs: Vec<(u32, u32)>)
    requires
        max_z >= 1,
    ensures
        slabs.len() == slab_count(total_z as int, max_z as int),
        forall|i: int| 0 <= i < slabs.len() ==>
            (#[trigger] slabs@[i]).0 as int == slab_at(total_z as int, max_z as int, i).0
            && slabs@[i].1 as int == slab_at(total_z as int, max_z as int, i).1,
{
    let mut slabs: Vec<(u32, u32)> = Vec::new();
    let mut z: u32 = 0;
    assert(slab_count(0, max_z as int) == 0) by (nonlinear_arith)
        requires
            max_z >= 1,
    ;
    while z < total_z
        invariant
            max_z >= 1,
            z <= total_z,
            slabs.len() == slab_count(z as int, max_z as int),
            z < total_z ==> z as int == slabs.len() * max_z,
            forall|i: int| 0 <= i < slabs.len() ==>
                (#[trigger] slabs@[i]).0 as int == slab_at(total_z as int, max_z as int, i).0
                && slabs@[i].1 as int == slab_at(total_z as int, max_z as int, i).1,
        decreases total_z - z,
    {
        let rest = total_z - z;
        let count = if rest < max_z { rest } else { max_z };
        let ghost k = slabs.len() as int;
        slabs.push((z, count));
        proof {
            lemma_slab_count_step(z as int, max_z as int, k, count as int);
            assert((k + 1) * max_z == k * max_z + max_z) by (nonlinear_arith);
        }
        z = z + count;
    }
    slabs
}

proof fn lemma_slab_count_step(z: int, m: int, k: int, count: int)
    requires
        m >= 1,
        k >= 0,
        z == k * m,
        1 <= count <= m,
        slab_count(z, m) == k,
    ensures
        slab_count(z + count, m) == k + 1,
{
    assert((k * m + count + m - 1) / m == k + 1) by (nonlinear_arith)
        requires
            m >= 1,
            1 <= count <= m,
    ;
}

/// Law: the planned slabs tile the layers `0..total_z` without gap or
/// overlap: each starts where the previous one ended, none is empty or
/// larger than `max_z`, and the last ends at `total_z`.
pub proof fn lemma_slabs_tile_layers(total_z: int, max_z: int)
    requires
        total_z >= 0,
        max_z >= 1,
    ensures
        slab_at(total_z, max_z, 0).0 == 0,
        forall|i: int| 0 <= i < slab_count(total_z, max_z) ==>
            1 <= (#[trigger] slab_at(total_z, max_z, i)).1 <= max_z,
        forall|i: int| 0 <= i && i + 1 < slab_count(total_z, max_z) ==>
            (#[trigger] slab_at(total_z, max_z, i + 1)).0 == slab_at(total_z, max_z, i).0 + slab_at(total_z, max_z, i).1,
        slab_count(total_z, max_z) > 0 ==>
            slab_at(total_z, max_z, slab_count(total_z, max_z) - 1).0
                + slab_at(total_z, max_z, slab_count(total_z, max_z) - 1).1 == total_z,
{
    let n = slab_count(total_z, max_z);
    assert forall|i: int| 0 <= i < n implies 1 <= (#[trigger] slab_at(total_z, max_z, i)).1 <= max_z by {
        assert(i * max_z < total_z) by (nonlinear_arith)
            requires
                0 <= i,
                i < (total_z + max_z - 1) / max_z,
                max_z >= 1,
        ;
    }
    assert forall|i: int| 0 <= i && i + 1 < n implies
        (#[trigger] slab_at(total_z, max_z, i + 1)).0 == slab_at(total_z, max_z, i).0 + slab_at(total_z, max_z, i).1 by {
        assert((i + 1) * max_z < total_z) by (nonlinear_arith)
            requires
                0 <= i,
                i + 1 < (total_z + max_z - 1) / max_z,
                max_z >= 1,
        ;
        assert((i + 1) * max_z == i * max_z + max_z) by (nonlinear_arith);
    }
    if n > 0 {
        assert((n - 1) * max_z < total_z && total_z - (n - 1) * max_z <= max_z) by (nonlinear_arith)
            requires
                n == (total_z + max_z - 1) / max_z,
                n > 0,
                max_z >= 1,
                total_z >= 0,
        ;
    }
}

/// Compute workgroups per axis for a slab of `slab_z` layers: the shader
/// runs 4x4x4 invocations per workgroup, so each axis needs
/// `ceil(vertices / 4)` groups.
pub fn workgroup_counts(resolution: u32, slab_z: u32) -> (wg: (u32, u32, u32))
    requires
        resolution + 4 <= u32::MAX,
        slab_z + 3 <= u32::MAX,
    ensures
        wg.0 as int == (resolution + 1 + 3) / 4,
        wg.1 as int == (resolution + 1 + 3) / 4,
        wg.2 as int == (slab_z + 3) / 4,
        (wg.0 as int) * 4 >= resolution + 1,
        (wg.2 as int) * 4 >= slab_z,
{
    let wg_x = (resolution + 1 + 3) / 4;
    let wg_z = (slab_z + 3) / 4;
    (wg_x, wg_x, wg_z)
}

} // verus!
