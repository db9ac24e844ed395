use std::sync::Arc;

use tokio::sync::oneshot;
use tokio::sync::Mutex;

use chapterhub::download::conclude_fetch;
use chapterhub::download::resolve_source;
use chapterhub::download::DownloadError;
use chapterhub::download::FetchError;
use chapterhub::download::SourceRegistry;
use chapterhub::job::JobCell;
use chapterhub::job::JobState;
use chapterhub::model::ChapterId;
use chapterhub::model::SourceId;

/// A stand-in source plugin handle: fetching "stores" the chapter and
/// yields a fixed path, or fails with a fixed message.
#[derive(Clone)]
struct StubSource {
    path: Result<String, String>,
}

fn chapter(source: &str, manga: &str, chapter: &str) -> ChapterId {
    ChapterId::from_strings(source.to_string(), manga.to_string(), chapter.to_string())
}

/// The runtime glue a server would provide: resolve under the registry
/// lock, release it, fetch, then write the cell exactly once.
async fn run_download(
    registry: Arc<Mutex<SourceRegistry<StubSource>>>,
    cell: Arc<Mutex<JobCell>>,
    id: ChapterId,
    gate: Option<oneshot::Receiver<()>>,
) {
    let resolved = {
        let guard = registry.lock().await;
        match resolve_source(&guard, &id) {
            Ok(handle) => Ok(handle.clone()),
            Err(e) => Err(e),
        }
    };
    let outcome = match resolved {
        Err(e) => Err(e),
        Ok(source) => {
            if let Some(gate) = gate {
                let _ = gate.await;
            }
            let fetched = match source.path {
                Ok(path) => Ok(path),
                Err(message) => Err(FetchError::Source(message)),
            };
            conclude_fetch(fetched)
        }
    };
    let mut guard = cell.lock().await;
    match guard.poll() {
        JobState::InProgress(()) => guard.complete(outcome),
        _ => panic!("a job cell is written only once"),
    }
}

async fn poll_until_terminal(cell: &Arc<Mutex<JobCell>>) -> JobState<(), String, DownloadError> {
    loop {
        let state = cell.lock().await.poll();
        match state {
            JobState::InProgress(()) => tokio::time::sleep(std::time::Duration::from_millis(1)).await,
            terminal => return terminal,
        }
    }
}

fn registry_with_s1() -> SourceRegistry<StubSource> {
    let mut registry = SourceRegistry::new();
    registry.register(
        SourceId::new("s1".to_string()),
        StubSource { path: Ok("downloads/m1/chapter-3.5.cbz".to_string()) },
    );
    registry
}

#[test]
fn fresh_job_is_in_progress_then_stably_terminal() {
    let rt = tokio::runtime::Runtime::new().unwrap();
    rt.block_on(async {
        let registry = Arc::new(Mutex::new(registry_with_s1()));
        let cell = Arc::new(Mutex::new(JobCell::new()));
        let (open_gate, gate) = oneshot::channel();
        let task = tokio::spawn(run_download(
            registry,
            cell.clone(),
            chapter("s1", "m1", "chapter-3.5"),
            Some(gate),
        ));
        match cell.lock().await.poll() {
            JobState::InProgress(()) => {}
            _ => panic!("nothing was fetched yet"),
        }
        open_gate.send(()).unwrap();
        task.await.unwrap();
        let first = poll_until_terminal(&cell).await;
        match &first {
            JobState::Completed(path) => assert_eq!(path, "downloads/m1/chapter-3.5.cbz"),
            _ => panic!("the stub fetch succeeds"),
        }
        for _ in 0..3 {
            match (&first, cell.lock().await.poll()) {
                (JobState::Completed(a), JobState::Completed(b)) => assert_eq!(*a, b),
                _ => panic!("a terminal state never changes"),
            }
        }
    });
}

#[test]
fn download_completes_with_the_stored_path() {
    let rt = tokio::runtime::Runtime::new().unwrap();
    rt.block_on(async {
        let registry = Arc::new(Mutex::new(registry_with_s1()));
        let cell = Arc::new(Mutex::new(JobCell::new()));
        tokio::spawn(run_download(
            registry,
            cell.clone(),
            chapter("s1", "m1", "chapter-3.5"),
            None,
        ));
        match poll_until_terminal(&cell).await {
            JobState::Completed(path) => assert_eq!(path, "downloads/m1/chapter-3.5.cbz"),
            _ => panic!("the stub fetch succeeds"),
        }
    });
}

#[test]
fn unknown_source_errors_and_never_hangs() {
    let rt = tokio::runtime::Runtime::new().unwrap();
    rt.block_on(async {
        let registry = Arc::new(Mutex::new(SourceRegistry::new()));
        let cell = Arc::new(Mutex::new(JobCell::new()));
        tokio::spawn(run_download(
            registry,
            cell.clone(),
            chapter("s1", "m1", "chapter-3.5"),
            None,
        ));
        match poll_until_terminal(&cell).await {
            JobState::Errored(e) => assert!(matches!(e, DownloadError::SourceNotFound)),
            _ => panic!("an unknown source is a terminal error"),
        }
    });
}

#[test]
fn failed_fetch_surfaces_as_fetch_failed() {
    let rt = tokio::runtime::Runtime::new().unwrap();
    rt.block_on(async {
        let mut registry = SourceRegistry::new();
        registry.register(
            SourceId::new("s1".to_string()),
            StubSource { path: Err("upstream said no".to_string()) },
        );
        let registry = Arc::new(Mutex::new(registry));
        let cell = Arc::new(Mutex::new(JobCell::new()));
        tokio::spawn(run_download(registry, cell.clone(), chapter("s1", "m1", "7"), None));
        match poll_until_terminal(&cell).await {
            JobState::Errored(DownloadError::FetchFailed(m)) => assert_eq!(m, "upstream said no"),
            _ => panic!("the stub fetch fails with the source's message"),
        }
    });
}

#[test]
fn concurrent_jobs_share_the_registry_without_deadlock() {
    let rt = tokio::runtime::Runtime::new().unwrap();
    rt.block_on(async {
        let registry = Arc::new(Mutex::new(registry_with_s1()));
        let one = Arc::new(Mutex::new(JobCell::new()));
        let two = Arc::new(Mutex::new(JobCell::new()));
        let t1 = tokio::spawn(run_download(
            registry.clone(),
            one.clone(),
            chapter("s1", "m1", "1"),
            None,
        ));
        let t2 = tokio::spawn(run_download(
            registry.clone(),
            two.clone(),
            chapter("s1", "m1", "2"),
            None,
        ));
        t1.await.unwrap();
        t2.await.unwrap();
        assert!(matches!(poll_until_terminal(&one).await, JobState::Completed(_)));
        assert!(matches!(poll_until_terminal(&two).await, JobState::Completed(_)));
    });
}

#[test]
fn cell_records_each_outcome_exactly() {
    let mut success = JobCell::new();
    assert!(matches!(success.poll(), JobState::InProgress(())));
    success.complete(Ok("a/path".to_string()));
    match success.poll() {
        JobState::Completed(path) => assert_eq!(path, "a/path"),
        _ => panic!("a written Ok polls as completed"),
    }
    let mut failure = JobCell::new();
    failure.complete(Err(DownloadError::StorageFailed("full".to_string())));
    match failure.poll() {
        JobState::Errored(DownloadError::StorageFailed(m)) => assert_eq!(m, "full"),
        _ => panic!("a written Err polls as errored"),
    }
}

#[test]
fn registry_lookup_and_replacement() {
    let mut registry: SourceRegistry<u32> = SourceRegistry::new();
    let s1 = SourceId::new("s1".to_string());
    assert!(registry.lookup(&s1).is_none());
    registry.register(s1.duplicate(), 7);
    registry.register(SourceId::new("s2".to_string()), 8);
    assert_eq!(registry.lookup(&s1), Some(&7));
    registry.register(s1.duplicate(), 9);
    assert_eq!(registry.lookup(&s1), Some(&9));
    assert_eq!(registry.lookup(&SourceId::new("s2".to_string())), Some(&8));
    assert!(registry.lookup(&SourceId::new("s3".to_string())).is_none());
}

#[test]
fn fetch_outcomes_map_into_the_error_surface() {
    assert!(matches!(
        conclude_fetch(Ok("p".to_string())),
        Ok(p) if p == "p"
    ));
    assert!(matches!(
        conclude_fetch(Err(FetchError::Source("s".to_string()))),
        Err(DownloadError::FetchFailed(m)) if m == "s"
    ));
    assert!(matches!(
        conclude_fetch(Err(FetchError::Storage("t".to_string()))),
        Err(DownloadError::StorageFailed(m)) if m == "t"
    ));
}
