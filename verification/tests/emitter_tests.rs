use std::cell::RefCell;
use std::rc::Rc;

use file_store::emitter::Emitter;

#[test]
fn emit_calls_handlers_of_the_named_event_in_order() {
    let log: Rc<RefCell<Vec<(u32, Vec<u8>)>>> = Rc::new(RefCell::new(Vec::new()));

    let make_handler = |id: u32| {
        let log = log.clone();
        move |args: &[u8]| {
            log.borrow_mut().push((id, args.to_vec()));
        }
    };

    let mut emitter = Emitter::new();
    emitter.on("data", make_handler(1));
    emitter.on("data", make_handler(2));

    emitter.emit("data", &[7u8, 8u8]);
    emitter.emit("other", &[9u8]);

    let entries = log.borrow();
    assert_eq!(entries.len(), 2);
    assert_eq!(entries[0], (1, vec![7u8, 8u8]));
    assert_eq!(entries[1], (2, vec![7u8, 8u8]));
}

#[test]
fn off_drops_a_whole_event() {
    let log: Rc<RefCell<Vec<Vec<u8>>>> = Rc::new(RefCell::new(Vec::new()));

    let log1 = log.clone();
    let handler = move |args: &[u8]| {
        log1.borrow_mut().push(args.to_vec());
    };

    let mut emitter = Emitter::new();
    emitter.on("tick", handler);
    emitter.emit("tick", &[1u8]);
    emitter.off("tick");
    emitter.emit("tick", &[2u8]);

    let entries = log.borrow();
    assert_eq!(entries.len(), 1);
    assert_eq!(entries[0], vec![1u8]);
}
