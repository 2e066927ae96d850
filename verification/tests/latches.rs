use samurai::latches::{LatchState, LatchStore, LATCHES_FILE};

/// A store and the record that it wrote last.
struct Disk {
    store: LatchStore,
    written: Option<LatchState>,
}

impl Disk {
    fn open(written: Option<LatchState>) -> Disk {
        Disk { store: LatchStore::new(written), written }
    }

    fn restart(&self) -> Disk {
        Disk::open(self.written)
    }

    fn set_allowance(&mut self, allowance: LatchState) {
        if let Some(state) = self.store.set_allowance(allowance) {
            self.written = Some(state);
        }
    }

    fn set_gh_auth_lost(&mut self, lost: bool) {
        if let Some(state) = self.store.set_gh_auth_lost(lost) {
            self.written = Some(state);
        }
    }
}

#[test]
fn test_latches_round_trip_across_a_restart() {
    let mut disk = Disk::open(None);
    assert_eq!(disk.store.snapshot(), LatchState::default(), "nothing latched");

    disk.set_allowance(LatchState {
        above_soft_5h: true,
        above_hard_5h: true,
        ..LatchState::default()
    });
    disk.set_gh_auth_lost(true);

    // A fresh store over the same record.
    let reopened = disk.restart();
    assert_eq!(
        reopened.store.snapshot(),
        LatchState {
            above_soft_5h: true,
            above_hard_5h: true,
            above_hard_7d: false,
            no_window_reported: false,
            gh_auth_lost: true,
        }
    );
}

#[test]
fn test_the_two_writers_do_not_clobber_each_other() {
    // Each writer must only ever touch its own fields.
    let mut disk = Disk::open(None);
    disk.set_gh_auth_lost(true);
    disk.set_allowance(LatchState { above_hard_7d: true, ..LatchState::default() });
    assert!(disk.store.snapshot().gh_auth_lost, "auth latch survived");

    disk.set_gh_auth_lost(false);
    assert!(disk.store.snapshot().above_hard_7d, "allowance latch survived the auth write");
    assert_eq!(
        disk.restart().store.snapshot(),
        LatchState { above_hard_7d: true, ..LatchState::default() }
    );
}

#[test]
fn test_a_missing_or_corrupt_file_loads_un_latched() {
    // Neither a missing nor a corrupt file gives a record.
    let mut disk = Disk::open(None);
    assert_eq!(disk.store.snapshot(), LatchState::default());
    // And it recovers: the next write replaces what was there.
    disk.set_gh_auth_lost(true);
    assert!(disk.restart().store.snapshot().gh_auth_lost);
}

#[test]
fn test_an_unwritable_path_never_panics() {
    // Every write fails, and the record in memory still tracks.
    let mut store = LatchStore::new(None);
    assert!(store.set_gh_auth_lost(true).is_some());
    assert!(store.snapshot().gh_auth_lost, "memory still tracks");
}

#[test]
fn test_nothing_is_written_where_nothing_changed() {
    let mut store = LatchStore::new(None);
    assert!(store.set_gh_auth_lost(false).is_none());
    let soft = LatchState { above_soft_5h: true, ..LatchState::default() };
    assert_eq!(store.set_allowance(soft), Some(soft));
    assert!(store.set_allowance(soft).is_none());
    // The allowance writer's own copy of the other latch is not taken over.
    assert!(store.set_allowance(LatchState { gh_auth_lost: true, ..soft }).is_none());
    assert_eq!(LATCHES_FILE, "latches.json");
}
