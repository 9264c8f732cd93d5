use custos::socket::{
    build_socket_config, build_umem, populate_fill_queue, BindFlags, FillQueueError, SocketConfig,
    UmemSettings, UMEM_FRAME_SIZE,
};
use custos::text::decimal_text;

#[test]
fn umem_has_standard_frames_and_equal_rings() {
    assert_eq!(
        build_umem(4096, 2048, true),
        UmemSettings {
            frame_count: 4096,
            frame_size: 2048,
            frame_headroom: 0,
            fill_queue_size: 2048,
            comp_queue_size: 2048,
            huge_pages: true,
        }
    );
    assert_eq!(UMEM_FRAME_SIZE, 2048);
    assert!(!build_umem(1, 1, false).huge_pages);
}

#[test]
fn umem_size_is_given_in_kib() {
    assert_eq!(build_umem(4096, 2048, false).total_kib(), 8192);
    assert_eq!(build_umem(1, 2048, false).total_kib(), 2);
    assert_eq!(build_umem(u32::MAX, 2048, false).total_kib(), 8_589_934_590);
}

fn config(copy: bool, zerocopy: bool, inhibit_prog_load: bool) -> SocketConfig {
    SocketConfig {
        bind_flags: BindFlags { use_need_wakeup: true, copy, zerocopy },
        inhibit_prog_load,
    }
}

#[test]
fn socket_is_bound_as_asked_for() {
    assert_eq!(build_socket_config(false, false, false), config(false, false, false));
    assert_eq!(build_socket_config(true, false, false), config(true, false, false));
    assert_eq!(build_socket_config(false, true, false), config(false, true, false));
    assert_eq!(build_socket_config(false, false, true), config(false, false, true));
    assert_eq!(build_socket_config(false, true, true), config(false, true, true));
}

#[test]
fn copy_mode_takes_precedence() {
    assert_eq!(build_socket_config(true, true, false), config(true, false, false));
    assert_eq!(build_socket_config(true, true, true), config(true, false, true));
}

#[test]
fn fill_queue_has_to_accept_all_frames() {
    assert_eq!(populate_fill_queue(4096, 4096), Ok(()));
    assert_eq!(populate_fill_queue(0, 0), Ok(()));
    assert_eq!(
        populate_fill_queue(0, 4096),
        Err(FillQueueError { produced: 0, offered: 4096 })
    );
    assert_eq!(
        FillQueueError { produced: 2048, offered: 4096 }.message(),
        "Failed to populate Fill Queue: produced 2048 out of 4096 frames"
    );
}

#[test]
fn numbers_are_written_in_decimal() {
    for n in [0, 7, 9, 10, 99, 100, 1234567890, usize::MAX] {
        assert_eq!(decimal_text(n), format!("{}", n));
    }
}
