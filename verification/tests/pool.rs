use webhook_dispatch::pool::ChannelPool;

#[test]
fn cycles_through_all_handles_in_order() {
    let mut pool = ChannelPool::new(vec![10u64, 20, 30]);
    let mut seen = Vec::new();
    for _ in 0..7 {
        seen.push(*pool.get_next_channel());
    }
    assert_eq!(seen, vec![10, 20, 30, 10, 20, 30, 10]);
}

#[test]
fn full_cycle_issues_each_handle_exactly_once() {
    let k = 5usize;
    let handles: Vec<usize> = (0..k).collect();
    let mut pool = ChannelPool::new(handles);
    let mut counts = vec![0usize; k];
    for _ in 0..k {
        counts[*pool.get_next_channel()] += 1;
    }
    assert!(counts.iter().all(|&c| c == 1));
    // The (K+1)-th acquisition returns the same handle as the first.
    assert_eq!(*pool.get_next_channel(), 0);
}

#[test]
fn concurrent_acquirers_get_each_handle_exactly_once_per_cycle() {
    let rt = tokio::runtime::Builder::new_multi_thread()
        .worker_threads(4)
        .build()
        .unwrap();
    rt.block_on(async {
        let k = 8usize;
        let cycles = 25usize;
        let handles: Vec<usize> = (0..k).collect();
        let pool = std::sync::Arc::new(tokio::sync::Mutex::new(ChannelPool::new(handles)));
        let mut tasks = Vec::new();
        for _ in 0..(k * cycles) {
            let pool = std::sync::Arc::clone(&pool);
            tasks.push(tokio::spawn(async move {
                let mut guard = pool.lock().await;
                *guard.get_next_channel()
            }));
        }
        let mut counts = vec![0usize; k];
        for task in tasks {
            counts[task.await.unwrap()] += 1;
        }
        // Round-robin in acquisition order: over full cycles, no handle is
        // issued twice within a cycle and none is skipped, so every handle
        // comes out exactly once per cycle.
        for count in counts {
            assert_eq!(count, cycles);
        }
    });
}

#[test]
fn single_handle_pool_always_returns_it() {
    let mut pool = ChannelPool::new(vec![String::from("only")]);
    for _ in 0..3 {
        assert_eq!(pool.get_next_channel().as_str(), "only");
    }
}
