use std::sync::Arc;

use redis_lite::storage::Storage;

#[test]
fn concurrent_disjoint_sets_observe_own_writes() {
    let rt = tokio::runtime::Builder::new_multi_thread().worker_threads(4).build().unwrap();
    rt.block_on(async {
        let storage = Arc::new(tokio::sync::Mutex::new(Storage::new(0)));
        let mut handles = Vec::new();
        for i in 0..16u32 {
            let shared = Arc::clone(&storage);
            handles.push(tokio::spawn(async move {
                let key = format!("key{}", i);
                let val = format!("val{}", i);
                {
                    let mut st = shared.lock().await;
                    st.set(key.clone(), val.clone(), 0, 0);
                }
                {
                    let st = shared.lock().await;
                    let item = st.get(&key, 0).expect("own write must be visible");
                    assert_eq!(item.value, val);
                }
            }));
        }
        for h in handles {
            h.await.unwrap();
        }
        let st = storage.lock().await;
        assert_eq!(st.items.len(), 16);
    });
}
