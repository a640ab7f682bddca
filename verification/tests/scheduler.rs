use ferrodoc::{
    Bytes, CancellationToken, DeviceId, DeviceKind, Estimate, LeaseRequest, Scheduler,
    SchedulerConfig, SchedulerError, Sha256Digest, WarmResidency,
};

fn cuda() -> DeviceId {
    DeviceId::new(DeviceKind::Cuda, Some(0)).unwrap()
}

fn scheduler() -> Scheduler {
    Scheduler::new(SchedulerConfig {
        cpu_workers: 2,
        ram_budget: Bytes::new(4 * Bytes::GIB),
        device_budgets: vec![(cuda(), Bytes::new(2 * Bytes::GIB))],
    })
    .unwrap()
}

fn request(vram: Estimate<Bytes>) -> LeaseRequest {
    LeaseRequest {
        ram: Estimate::Known(Bytes::new(Bytes::GIB)),
        device: Some((cuda(), vram)),
        retain_warm: None,
        guard_unknown: false,
    }
}

fn reserved_on(scheduler: &Scheduler, device: DeviceId) -> Option<Bytes> {
    scheduler
        .snapshot()
        .reserved_devices
        .iter()
        .find(|(d, _)| *d == device)
        .map(|(_, b)| *b)
}

#[test]
fn overlapping_device_leases_never_exceed_budget() {
    let mut scheduler = scheduler();
    let first = scheduler
        .try_acquire(
            request(Estimate::Known(Bytes::new(1536 * Bytes::MIB))),
            CancellationToken::default(),
        )
        .unwrap();
    assert!(matches!(
        scheduler.try_acquire(
            request(Estimate::Known(Bytes::new(Bytes::GIB))),
            CancellationToken::default(),
        ),
        Err(SchedulerError::Backpressure)
    ));
    scheduler.release(first);
    assert!(scheduler
        .try_acquire(
            request(Estimate::Known(Bytes::new(Bytes::GIB))),
            CancellationToken::default(),
        )
        .is_ok());
}

#[test]
fn guarded_unknown_reserves_the_entire_device() {
    let mut scheduler = scheduler();
    let mut guarded = request(Estimate::Unknown);
    guarded.guard_unknown = true;
    let lease = scheduler
        .try_acquire(guarded, CancellationToken::default())
        .unwrap();
    assert_eq!(
        reserved_on(&scheduler, cuda()),
        Some(Bytes::new(2 * Bytes::GIB))
    );
    assert!(matches!(
        scheduler.try_acquire(
            request(Estimate::Known(Bytes::new(1))),
            CancellationToken::default(),
        ),
        Err(SchedulerError::Backpressure)
    ));
    scheduler.release(lease);
}

#[test]
fn observation_beyond_reservation_cancels_execution() {
    let mut scheduler = scheduler();
    let cancellation = CancellationToken::default();
    let mut lease = scheduler
        .try_acquire(
            request(Estimate::Known(Bytes::new(Bytes::GIB))),
            cancellation.clone(),
        )
        .unwrap();
    assert!(matches!(
        lease.observe(None, Some(Bytes::new(Bytes::GIB + 1))),
        Err(SchedulerError::ObservationExceeded { .. })
    ));
    assert!(cancellation.is_cancelled());
}

#[test]
fn warm_residency_is_counted_and_evictable() {
    let mut scheduler = scheduler();
    let digest = Sha256Digest::of_bytes(b"model");
    let mut request = request(Estimate::Known(Bytes::new(Bytes::GIB)));
    request.retain_warm = Some(WarmResidency {
        model_digest: digest,
        device: cuda(),
        bytes: Bytes::new(512 * Bytes::MIB),
    });
    let mut lease = scheduler
        .try_acquire(request, CancellationToken::default())
        .unwrap();
    lease.complete();
    scheduler.release(lease);
    assert_eq!(scheduler.snapshot().warm_models, 1);
    assert!(scheduler.evict_warm(digest, &cuda()));
    assert_eq!(scheduler.snapshot().warm_models, 0);
}

#[test]
fn waiting_acquisition_observes_cancellation() {
    let mut scheduler = Scheduler::new(SchedulerConfig {
        cpu_workers: 1,
        ram_budget: Bytes::new(Bytes::GIB),
        device_budgets: vec![],
    })
    .unwrap();
    let held = scheduler
        .try_acquire(
            LeaseRequest {
                ram: Estimate::Known(Bytes::new(Bytes::GIB)),
                device: None,
                retain_warm: None,
                guard_unknown: false,
            },
            CancellationToken::default(),
        )
        .unwrap();
    let cancellation = CancellationToken::default();
    let small = LeaseRequest {
        ram: Estimate::Known(Bytes::new(1)),
        device: None,
        retain_warm: None,
        guard_unknown: false,
    };
    assert!(matches!(
        scheduler.acquire(small, cancellation.clone(), false),
        Err(SchedulerError::Backpressure)
    ));
    cancellation.cancel();
    assert!(matches!(
        scheduler.acquire(small, cancellation.clone(), false),
        Err(SchedulerError::Cancelled)
    ));
    assert!(matches!(
        scheduler.acquire(small, CancellationToken::default(), true),
        Err(SchedulerError::DeadlineExceeded)
    ));
    scheduler.release(held);
    assert!(scheduler.acquire(small, CancellationToken::default(), false).is_ok());
}

#[test]
fn invalid_configurations_and_requests_are_refused() {
    assert!(matches!(
        Scheduler::new(SchedulerConfig {
            cpu_workers: 0,
            ram_budget: Bytes::new(1),
            device_budgets: vec![],
        }),
        Err(SchedulerError::InvalidConfiguration(_))
    ));
    assert!(matches!(
        Scheduler::new(SchedulerConfig {
            cpu_workers: 1,
            ram_budget: Bytes::new(1),
            device_budgets: vec![(cuda(), Bytes::new(1)), (cuda(), Bytes::new(2))],
        }),
        Err(SchedulerError::InvalidConfiguration(_))
    ));
    let mut scheduler = scheduler();
    assert!(matches!(
        scheduler.try_acquire(request(Estimate::Unknown), CancellationToken::default()),
        Err(SchedulerError::UnknownEstimate(_))
    ));
    assert!(matches!(
        scheduler.try_acquire(
            request(Estimate::Known(Bytes::new(3 * Bytes::GIB))),
            CancellationToken::default()
        ),
        Err(SchedulerError::ExceedsBudget { resource: "VRAM", .. })
    ));
    let metal = DeviceId::new(DeviceKind::Metal, None).unwrap();
    let mut other = request(Estimate::Known(Bytes::new(1)));
    other.device = Some((metal, Estimate::Known(Bytes::new(1))));
    assert!(matches!(
        scheduler.try_acquire(other, CancellationToken::default()),
        Err(SchedulerError::UnknownDevice(_))
    ));
    let snapshot = scheduler.snapshot();
    assert_eq!(snapshot.active_workers, 0);
    assert_eq!(snapshot.reserved_ram, Bytes::new(0));
}

#[test]
fn worker_slots_bound_concurrency() {
    let mut scheduler = scheduler();
    let small = || LeaseRequest {
        ram: Estimate::Known(Bytes::new(1)),
        device: None,
        retain_warm: None,
        guard_unknown: false,
    };
    let a = scheduler.try_acquire(small(), CancellationToken::default()).unwrap();
    let b = scheduler.try_acquire(small(), CancellationToken::default()).unwrap();
    assert!(matches!(
        scheduler.try_acquire(small(), CancellationToken::default()),
        Err(SchedulerError::Backpressure)
    ));
    assert_eq!(scheduler.snapshot().active_workers, 2);
    assert_eq!(scheduler.snapshot().reserved_ram, Bytes::new(2));
    scheduler.release(a);
    scheduler.release(b);
    assert_eq!(scheduler.snapshot().active_workers, 0);
}

#[test]
fn a_lease_round_trip_restores_the_accounting() {
    let mut scheduler = scheduler();
    let before = scheduler.snapshot();
    let lease = scheduler
        .try_acquire(
            request(Estimate::Known(Bytes::new(Bytes::GIB))),
            CancellationToken::default(),
        )
        .unwrap();
    assert_ne!(scheduler.snapshot(), before);
    scheduler.release(lease);
    assert_eq!(scheduler.snapshot(), before);

    // A completed lease with warm residency leaves exactly that residency behind.
    let mut warm = request(Estimate::Known(Bytes::new(Bytes::GIB)));
    warm.retain_warm = Some(WarmResidency {
        model_digest: Sha256Digest::of_bytes(b"round trip"),
        device: cuda(),
        bytes: Bytes::new(256 * Bytes::MIB),
    });
    let mut lease = scheduler.try_acquire(warm, CancellationToken::default()).unwrap();
    lease.complete();
    scheduler.release(lease);
    let after = scheduler.snapshot();
    assert_eq!(after.active_workers, before.active_workers);
    assert_eq!(after.reserved_ram, before.reserved_ram);
    assert_eq!(after.warm_models, before.warm_models + 1);
    assert_eq!(reserved_on(&scheduler, cuda()), Some(Bytes::new(256 * Bytes::MIB)));
}

#[test]
fn measured_peaks_are_the_maxima_of_the_observations() {
    let mut scheduler = scheduler();
    let mut lease = scheduler
        .try_acquire(
            request(Estimate::Known(Bytes::new(Bytes::GIB))),
            CancellationToken::default(),
        )
        .unwrap();
    assert_eq!(lease.measurement().peak_ram, None);
    assert_eq!(lease.measurement().peak_vram, None);
    for (ram, vram) in [
        (Some(100), None),
        (Some(300), Some(500)),
        (None, Some(200)),
        (Some(200), None),
    ] {
        assert!(lease.observe(ram.map(Bytes::new), vram.map(Bytes::new)).is_ok());
    }
    assert_eq!(lease.measurement().peak_ram, Some(Bytes::new(300)));
    assert_eq!(lease.measurement().peak_vram, Some(Bytes::new(500)));
    scheduler.release(lease);
}
