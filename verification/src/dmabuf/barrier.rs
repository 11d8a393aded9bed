//! The barriers around each read of an imported image.
//!
//! A kernel driver writes into the DMA-BUF behind Vulkan's back. Before a read, its writes are
//! made visible and the image is acquired from the foreign queue family; after the last read it
//! is released again.
use vstd::prelude::*;

verus! {

/// `VK_QUEUE_FAMILY_FOREIGN_EXT`.
pub const QUEUE_FAMILY_FOREIGN: u32 = 0xffff_fffd;

/// `VK_ACCESS_HOST_WRITE_BIT`.
pub const ACCESS_HOST_WRITE: u32 = 0x4000;

/// `VK_ACCESS_TRANSFER_READ_BIT` and `VK_ACCESS_SHADER_READ_BIT`.
pub const ACCESS_READ: u32 = 0x0820;

/// `VK_PIPELINE_STAGE_HOST_BIT`.
pub const STAGE_HOST: u32 = 0x4000;

/// `VK_PIPELINE_STAGE_TOP_OF_PIPE_BIT`.
pub const STAGE_TOP: u32 = 0x0001;

/// `VK_PIPELINE_STAGE_BOTTOM_OF_PIPE_BIT`.
pub const STAGE_BOTTOM: u32 = 0x2000;

/// The transfer, fragment shader and compute shader stages.
pub const STAGE_READ: u32 = 0x1880;

/// A barrier between two sets of pipeline stages.
#[derive(Debug, Clone, Copy, PartialEq, Eq, Structural)]
pub struct Barrier {
    pub src_stages: u32,
    pub dst_stages: u32,
    pub src_access: u32,
    pub dst_access: u32,
    /// The change of ownership of the image that goes with it, if any.
    pub transfer: Option<Transfer>,
}

/// A change of ownership between two queue families. The image stays in its layout.
#[derive(Debug, Clone, Copy, PartialEq, Eq, Structural)]
pub struct Transfer {
    pub layout: i32,
    pub src_family: u32,
    pub dst_family: u32,
}

/// The Vulkan queue that reads the image.
#[derive(Debug, Clone, Copy, PartialEq, Eq, Structural)]
pub struct Queue {
    pub family: u32,
    /// Whether the device has the foreign queue family.
    pub has_foreign: bool,
}

/// Writes of the host become visible to device reads. The host stage may not be combined with a
/// change of ownership, so this is a barrier of its own.
pub open spec fn host_visible() -> Barrier {
    Barrier {
        src_stages: STAGE_HOST,
        dst_stages: STAGE_READ,
        src_access: ACCESS_HOST_WRITE,
        dst_access: ACCESS_READ,
        transfer: None,
    }
}

/// The image is taken from the foreign producer.
pub open spec fn take(family: u32, layout: i32) -> Barrier {
    Barrier {
        src_stages: STAGE_TOP,
        dst_stages: STAGE_READ,
        src_access: 0,
        dst_access: ACCESS_READ,
        transfer: Some(Transfer { layout, src_family: QUEUE_FAMILY_FOREIGN, dst_family: family }),
    }
}

/// The image is given back to the foreign producer.
pub open spec fn give(family: u32, layout: i32) -> Barrier {
    Barrier {
        src_stages: STAGE_READ,
        dst_stages: STAGE_BOTTOM,
        src_access: ACCESS_READ,
        dst_access: 0,
        transfer: Some(Transfer { layout, src_family: family, dst_family: QUEUE_FAMILY_FOREIGN }),
    }
}

/// The barriers before a read (`acquire`) and after the last one.
pub open spec fn barriers(queue: Queue, layout: i32, acquire: bool) -> Seq<Barrier> {
    if acquire {
        if queue.has_foreign {
            seq![host_visible(), take(queue.family, layout)]
        } else {
            seq![host_visible()]
        }
    } else if queue.has_foreign {
        seq![give(queue.family, layout)]
    } else {
        Seq::empty()
    }
}

fn ownership_barrier(queue: Queue, layout: i32, acquire: bool) -> (r: Vec<Barrier>)
    ensures
        r@ == barriers(queue, layout, acquire),
{
    let mut out: Vec<Barrier> = Vec::new();
    if acquire {
        out.push(
            Barrier {
                src_stages: STAGE_HOST,
                dst_stages: STAGE_READ,
                src_access: ACCESS_HOST_WRITE,
                dst_access: ACCESS_READ,
                transfer: None,
            },
        );
        if queue.has_foreign {
            out.push(
                Barrier {
                    src_stages: STAGE_TOP,
                    dst_stages: STAGE_READ,
                    src_access: 0,
                    dst_access: ACCESS_READ,
                    transfer: Some(
                        Transfer {
                            layout,
                            src_family: QUEUE_FAMILY_FOREIGN,
                            dst_family: queue.family,
                        },
                    ),
                },
            );
        }
    } else if queue.has_foreign {
        out.push(
            Barrier {
                src_stages: STAGE_READ,
                dst_stages: STAGE_BOTTOM,
                src_access: ACCESS_READ,
                dst_access: 0,
                transfer: Some(
                    Transfer {
                        layout,
                        src_family: queue.family,
                        dst_family: QUEUE_FAMILY_FOREIGN,
                    },
                ),
            },
        );
    }
    proof {
        assert(out@ =~= barriers(queue, layout, acquire));
    }
    out
}

/// The barriers to record before a read of the image. Nothing where the device is not a Vulkan
/// device (`queue` is `None`).
pub fn foreign_acquire(queue: Option<Queue>, layout: i32) -> (r: Option<Vec<Barrier>>)
    ensures
        match queue {
            Some(q) => r matches Some(list) && list@ == barriers(q, layout, true),
            None => r is None,
        },
{
    match queue {
        Some(q) => Some(ownership_barrier(q, layout, true)),
        None => None,
    }
}

/// The matching barriers after the last read of the frame.
pub fn foreign_release(queue: Option<Queue>, layout: i32) -> (r: Option<Vec<Barrier>>)
    ensures
        match queue {
            Some(q) => r matches Some(list) && list@ == barriers(q, layout, false),
            None => r is None,
        },
{
    match queue {
        Some(q) => Some(ownership_barrier(q, layout, false)),
        None => None,
    }
}

/// Ownership after a row of barriers, where each transfer is made by the owner.
pub open spec fn owner_after(owner: u32, list: Seq<Barrier>) -> Option<u32>
    decreases list.len(),
{
    if list.len() == 0 {
        Some(owner)
    } else {
        match list[0].transfer {
            None => owner_after(owner, list.skip(1)),
            Some(t) => if t.src_family == owner {
                owner_after(t.dst_family, list.skip(1))
            } else {
                None
            },
        }
    }
}

/// Acquire and release are balanced: around a read the image goes from the foreign family to the
/// reading one and back.
pub proof fn ownership_comes_and_goes(queue: Queue, layout: i32)
    requires
        queue.has_foreign,
    ensures
        owner_after(QUEUE_FAMILY_FOREIGN, barriers(queue, layout, true)) == Some(queue.family),
        owner_after(queue.family, barriers(queue, layout, false)) == Some(QUEUE_FAMILY_FOREIGN),
{
    let (a, b) = (barriers(queue, layout, true), barriers(queue, layout, false));
    assert(a.skip(1) =~= seq![take(queue.family, layout)]);
    assert(a.skip(1).skip(1) =~= Seq::empty());
    assert(b.skip(1) =~= Seq::empty());
    reveal_with_fuel(owner_after, 3);
}

/// The host stage is never combined with a change of ownership, and no barrier changes the
/// layout of the image.
pub proof fn host_stage_stands_alone(queue: Queue, layout: i32, acquire: bool, i: int)
    requires
        0 <= i < barriers(queue, layout, acquire).len(),
    ensures
        barriers(queue, layout, acquire)[i].src_stages == STAGE_HOST
            ==> barriers(queue, layout, acquire)[i].transfer is None,
        barriers(queue, layout, acquire)[i].transfer matches Some(t) ==> t.layout == layout,
{
}

/// Before a read, what the host wrote is visible to it: to transfers, to fragment and to compute
/// shaders. After the last one nothing of the host is waited for.
pub proof fn host_writes_are_visible_before_a_read(queue: Queue, layout: i32)
    ensures
        barriers(queue, layout, true).len() == if queue.has_foreign {
            2nat
        } else {
            1
        },
        barriers(queue, layout, false).len() == if queue.has_foreign {
            1nat
        } else {
            0
        },
        ({
            let b = barriers(queue, layout, true)[0];
            &&& b.src_stages == 0x4000
            &&& b.src_access == 0x4000
            &&& b.dst_stages == 0x1000 + 0x0800 + 0x0080
            &&& b.dst_access == 0x0800 + 0x0020
            &&& b.transfer is None
        }),
{
}

/// A foreign image is taken before the reads begin and given back once they are over: the reads are
/// what both wait for, and the foreign family is at the other end.
pub proof fn reads_are_between_taking_and_giving(queue: Queue, layout: i32)
    requires
        queue.has_foreign,
    ensures
        ({
            let (t, g) = (barriers(queue, layout, true)[1], barriers(queue, layout, false)[0]);
            &&& t.src_stages == 0x0001 && g.dst_stages == 0x2000
            &&& t.dst_stages == g.src_stages == 0x1000 + 0x0800 + 0x0080
            &&& t.src_access == 0 && g.dst_access == 0
            &&& t.dst_access == g.src_access == 0x0800 + 0x0020
            &&& t.transfer == Some(
                Transfer { layout, src_family: 0xffff_fffd, dst_family: queue.family },
            )
            &&& g.transfer == Some(
                Transfer { layout, src_family: queue.family, dst_family: 0xffff_fffd },
            )
        }),
{
}

} // verus!
