use std::collections::HashMap;
use std::path::PathBuf;
use std::sync::Mutex;

#[test]
fn force_close_removes_running_op() {
    let path = "/test/repo".to_string();
    let running = Mutex::new(HashMap::<String, u32>::new());
    running.lock().unwrap().insert(path.clone(), 12345);

    let pid = running.lock().unwrap().remove(&path);
    assert_eq!(pid, Some(12345));
    assert!(!running.lock().unwrap().contains_key(&path));
}

#[test]
fn force_close_no_running_op_still_succeeds() {
    let path = "/test/repo".to_string();
    let running = Mutex::new(HashMap::<String, u32>::new());

    let pid = running.lock().unwrap().remove(&path);
    assert_eq!(pid, None);
}

#[test]
fn close_does_not_touch_running_op() {
    let path = "/test/repo".to_string();
    let state = Mutex::new(HashMap::<String, PathBuf>::new());
    let running = Mutex::new(HashMap::<String, u32>::new());

    state.lock().unwrap().insert(path.clone(), PathBuf::from(&path));
    running.lock().unwrap().insert(path.clone(), 12345);

    state.lock().unwrap().remove(&path);

    assert!(running.lock().unwrap().contains_key(&path));
    assert_eq!(*running.lock().unwrap().get(&path).unwrap(), 12345);
}
