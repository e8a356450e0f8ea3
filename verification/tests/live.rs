use pixeldeck::live::{LiveAction, LiveWorker};
use std::sync::{
    atomic::{AtomicBool, Ordering},
    Arc,
};

struct Animation {
    cancel: Arc<AtomicBool>,
}

impl LiveWorker for Animation {
    fn is_finished(&self) -> bool {
        false
    }

    fn stop(self) {
        self.cancel.store(true, Ordering::Release);
    }
}

#[test]
fn contexts_share_one_worker_until_the_last_unsubscribes() {
    let mut live = LiveAction::new();
    let finished = live.worker_finished();
    assert!(live.subscribe("first".to_owned(), finished));

    let cancel = Arc::new(AtomicBool::new(false));
    assert!(live
        .start(Animation {
            cancel: cancel.clone(),
        })
        .is_none());

    let finished = live.worker_finished();
    assert!(!live.subscribe("second".to_owned(), finished));
    if let Some(worker) = live.unsubscribe("first") {
        worker.stop();
    }
    assert!(!cancel.load(Ordering::Acquire));

    if let Some(worker) = live.unsubscribe("second") {
        worker.stop();
    }
    assert!(cancel.load(Ordering::Acquire));
}

#[test]
fn a_finished_worker_is_replaced_and_handed_back() {
    let mut live = LiveAction::new();
    assert!(live.subscribe("one".to_owned(), false));
    let first = Arc::new(AtomicBool::new(false));
    live.start(Animation { cancel: first.clone() });
    assert!(live.subscribe("two".to_owned(), true));
    let replaced = live.start(Animation {
        cancel: Arc::new(AtomicBool::new(false)),
    });
    replaced.unwrap().stop();
    assert!(first.load(Ordering::Acquire));
}
