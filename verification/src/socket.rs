//! The settings of the packet memory (UMEM) and of the AF_XDP socket, and the check that all
//! frames of the memory have been handed to the kernel.

use vstd::prelude::*;
use vstd::string::StringExecFns;

use crate::text::decimal_text;

verus! {

/// The size of a UMEM frame in bytes.
pub const UMEM_FRAME_SIZE: u32 = 2048;

/// With what to create a UMEM.
#[derive(Debug, Clone, Copy, PartialEq, Eq, Structural)]
pub struct UmemSettings {
    /// How many frames to allocate.
    pub frame_count: u32,
    /// The size of each in bytes.
    pub frame_size: u32,
    /// How many bytes to keep free at the start of each.
    pub frame_headroom: u32,
    /// How many entries the Fill ring has.
    pub fill_queue_size: u32,
    /// How many entries the Completion ring has.
    pub comp_queue_size: u32,
    /// Whether to back the memory by huge pages.
    pub huge_pages: bool,
}

impl UmemSettings {
    /// The size of the whole memory in bytes.
    pub open spec fn total_bytes(self) -> nat {
        self.frame_count as nat * self.frame_size as nat
    }

    /// The size of the whole memory in whole KiB.
    pub fn total_kib(&self) -> (kib: usize)
        requires
            self.total_bytes() <= usize::MAX,
        ensures
            kib == self.total_bytes() / 1024,
            1024 * kib <= self.frame_count * self.frame_size < 1024 * (kib + 1),
    {
        self.frame_count as usize * self.frame_size as usize / 1024
    }
}

/// The settings of a UMEM with frames of the standard size and no headroom. Both rings get
/// `ring_size` entries: 2048 as a rule, or `frame_count` in multi-queue deployments, where each
/// queue has a memory of its own that owns its full ring.
///
/// `frame_count` should be a power of two. With `huge_pages` the host has to have huge pages set
/// aside.
pub fn build_umem(frame_count: u32, ring_size: u32, huge_pages: bool) -> (settings: UmemSettings)
    requires
        0 < frame_count,
        0 < ring_size,
    ensures
        settings == (UmemSettings {
            frame_count,
            frame_size: UMEM_FRAME_SIZE,
            frame_headroom: 0,
            fill_queue_size: ring_size,
            comp_queue_size: ring_size,
            huge_pages,
        }),
        0 < settings.frame_size,
        settings.frame_size == 2048,
{
    UmemSettings {
        frame_count,
        frame_size: UMEM_FRAME_SIZE,
        frame_headroom: 0,
        fill_queue_size: ring_size,
        comp_queue_size: ring_size,
        huge_pages,
    }
}

/// How to bind an AF_XDP socket.
#[derive(Debug, Clone, Copy, PartialEq, Eq, Structural)]
pub struct BindFlags {
    /// `XDP_USE_NEED_WAKEUP`: the driver may sleep until it is woken.
    pub use_need_wakeup: bool,
    /// `XDP_COPY`: packets must be copied.
    pub copy: bool,
    /// `XDP_ZEROCOPY`: packets must not be copied.
    pub zerocopy: bool,
}

/// The settings of an AF_XDP socket that differ from the defaults.
#[derive(Debug, Clone, Copy, PartialEq, Eq, Structural)]
pub struct SocketConfig {
    /// How to bind it.
    pub bind_flags: BindFlags,
    /// `XSK_LIBXDP_FLAGS_INHIBIT_PROG_LOAD`: attach no XDP program.
    pub inhibit_prog_load: bool,
}

/// The settings that the given wishes amount to.
pub open spec fn socket_config(
    force_copy: bool,
    force_zerocopy: bool,
    inhibit_prog_load: bool,
) -> SocketConfig {
    SocketConfig {
        bind_flags: BindFlags {
            use_need_wakeup: true,
            copy: force_copy,
            zerocopy: force_zerocopy && !force_copy,
        },
        inhibit_prog_load,
    }
}

/// The settings of an AF_XDP socket.
///
/// `force_copy` and `force_zerocopy` exclude each other; the former takes precedence when both are
/// set. With `inhibit_prog_load` no XDP program is attached, which a secondary queue needs, as the
/// first has attached it to the interface already.
pub fn build_socket_config(
    force_copy: bool,
    force_zerocopy: bool,
    inhibit_prog_load: bool,
) -> (config: SocketConfig)
    ensures
        config == socket_config(force_copy, force_zerocopy, inhibit_prog_load),
        config.bind_flags.use_need_wakeup,
        config.bind_flags.copy <==> force_copy,
        config.bind_flags.zerocopy <==> force_zerocopy && !force_copy,
        config.inhibit_prog_load <==> inhibit_prog_load,
{
    let mut bind_flags = BindFlags { use_need_wakeup: true, copy: false, zerocopy: false };
    if force_copy {
        bind_flags.copy = true;
    } else if force_zerocopy {
        bind_flags.zerocopy = true;
    }
    SocketConfig { bind_flags, inhibit_prog_load }
}

/// Each wish shows in the settings as it should: copy mode wherever it is asked for, zero-copy mode
/// where it alone is, the program withheld where that is asked for, and nothing else.
pub proof fn law_wishes_are_met(force_copy: bool, force_zerocopy: bool, inhibit_prog_load: bool)
    ensures
        ({
            let config = socket_config(force_copy, force_zerocopy, inhibit_prog_load);
            &&& config.bind_flags.use_need_wakeup
            &&& config.bind_flags.copy <==> force_copy
            &&& config.bind_flags.zerocopy <==> force_zerocopy && !force_copy
            &&& config.inhibit_prog_load <==> inhibit_prog_load
        }),
{
}

/// The whole memory is as large as all its frames together.
pub proof fn law_total_bytes(settings: UmemSettings)
    ensures
        settings.total_bytes() == settings.frame_count * settings.frame_size,
{
}

/// Copy mode takes precedence: when it is asked for, asking for zero-copy mode too changes
/// nothing.
pub proof fn law_copy_takes_precedence(force_zerocopy: bool, inhibit_prog_load: bool)
    ensures
        socket_config(true, force_zerocopy, inhibit_prog_load) == socket_config(
            true,
            false,
            inhibit_prog_load,
        ),
        socket_config(true, force_zerocopy, inhibit_prog_load).bind_flags.copy,
{
}

/// No socket is bound in copy mode and in zero-copy mode at once, and each is one that may be
/// woken.
pub proof fn law_modes_exclude_each_other(
    force_copy: bool,
    force_zerocopy: bool,
    inhibit_prog_load: bool,
)
    ensures
        ({
            let flags = socket_config(force_copy, force_zerocopy, inhibit_prog_load).bind_flags;
            &&& !(flags.copy && flags.zerocopy)
            &&& flags.use_need_wakeup
        }),
{
}

/// The Fill ring did not accept all frames, which means that it has fewer entries than there are
/// frames.
#[derive(Debug, Clone, Copy, PartialEq, Eq, Structural)]
pub struct FillQueueError {
    /// How many frames it accepted.
    pub produced: usize,
    /// How many it was offered.
    pub offered: usize,
}

impl FillQueueError {
    /// The message for this error.
    pub fn message(&self) -> (text: String)
        ensures
            text@ == "Failed to populate Fill Queue: produced "@ + crate::text::decimal(
                self.produced as nat,
            ) + " out of "@ + crate::text::decimal(self.offered as nat) + " frames"@,
    {
        let produced: String = decimal_text(self.produced);
        let offered: String = decimal_text(self.offered);
        let mut text: String = "Failed to populate Fill Queue: produced ".to_string();
        text.append(produced.as_str());
        text.append(" out of ");
        text.append(offered.as_str());
        text.append(" frames");
        text
    }
}

/// Whether the Fill ring has been populated: it has if it accepted, of the frames that it was
/// offered, all.
pub fn populate_fill_queue(produced: usize, offered: usize) -> (outcome: Result<
    (),
    FillQueueError,
>)
    ensures
        outcome == (if produced == offered {
            Ok::<(), FillQueueError>(())
        } else {
            Err::<(), FillQueueError>(FillQueueError { produced, offered })
        }),
{
    if produced != offered {
        Err(FillQueueError { produced, offered })
    } else {
        Ok(())
    }
}

} // verus!
