use std::cell::{Cell, RefCell};
use std::rc::Rc;

use file_store::document::Document;
use file_store::store::{ConfigChangeCallback, FileStore, FileStoreError};

struct NoopCallback;

impl ConfigChangeCallback for NoopCallback {
    fn on_config_change(&self, _new_config: &Document, _old_config: &Document) {}
}

fn text(s: &str) -> Document {
    Document::Text(s.to_string())
}

fn obj_len(d: &Document) -> usize {
    match d {
        Document::Obj(entries) => entries.len(),
        _ => panic!("expected an object"),
    }
}

#[test]
fn test_filestore_creation() {
    let filestore =
        FileStore::<NoopCallback>::new("config.json".to_string(), None, None, None).unwrap();

    let config = filestore.get_config();
    assert!(config.is_obj());
    assert_eq!(obj_len(&config), 0);
}

#[test]
fn test_filestore_with_default() {
    let default_content = "{\n  \"key1\": \"value1\",\n  \"key2\": 42\n}".to_string();

    let filestore = FileStore::<NoopCallback>::new(
        "config.json".to_string(),
        Some("default.json".to_string()),
        None,
        Some(default_content),
    )
    .unwrap();

    let config = filestore.get_config();
    assert_eq!(obj_len(&config), 2);
    assert!(filestore.get("key1").unwrap().deep_eq(&text("value1")));
    assert!(filestore.get("key2").unwrap().deep_eq(&Document::Num(42)));
}

#[test]
fn test_set_and_get_config() {
    let mut filestore =
        FileStore::<NoopCallback>::new("config.json".to_string(), None, None, None).unwrap();

    let new_config = Document::empty_obj().insert_key("test_key", text("test_value"));

    filestore.set_config(new_config.deep_copy()).unwrap();

    let retrieved_config = filestore.get_config();
    assert!(retrieved_config.deep_eq(&new_config));
}

#[test]
fn test_save_and_load_json() {
    let mut filestore =
        FileStore::<NoopCallback>::new("config.json".to_string(), None, None, None).unwrap();

    filestore.set("name", text("test_user")).unwrap();
    filestore.set("age", Document::Num(25)).unwrap();

    let content = filestore.save_config().unwrap();
    filestore.confirm_saved();

    let loaded_config: serde_json::Value = serde_json::from_str(&content).unwrap();

    assert_eq!(
        loaded_config.get("name").unwrap(),
        &serde_json::Value::String("test_user".to_string())
    );
    assert_eq!(
        loaded_config.get("age").unwrap(),
        &serde_json::Value::Number(serde_json::Number::from(25))
    );
}

#[test]
fn test_save_and_load_yaml() {
    let mut filestore =
        FileStore::<NoopCallback>::new("config.yaml".to_string(), None, None, None).unwrap();

    filestore.set("name", text("test_user")).unwrap();
    filestore.set("age", Document::Num(25)).unwrap();

    let content = filestore.save_config().unwrap();
    filestore.confirm_saved();

    let loaded_config: serde_json::Value = serde_yaml::from_str(&content).unwrap();

    assert_eq!(
        loaded_config.get("name").unwrap(),
        &serde_json::Value::String("test_user".to_string())
    );
    assert_eq!(
        loaded_config.get("age").unwrap(),
        &serde_json::Value::Number(serde_json::Number::from(25))
    );
}

#[test]
fn test_get_typed_value() {
    let mut filestore =
        FileStore::<NoopCallback>::new("config.json".to_string(), None, None, None).unwrap();

    filestore.set("string_value", text("hello")).unwrap();
    filestore.set("number_value", Document::Num(42)).unwrap();
    filestore.set("bool_value", Document::Bool(true)).unwrap();

    let string_val = filestore.get("string_value").unwrap();
    let number_val = filestore.get("number_value").unwrap();
    let bool_val = filestore.get("bool_value").unwrap();

    assert_eq!(string_val.as_text().unwrap().as_str(), "hello");
    assert_eq!(number_val.as_num().unwrap(), 42);
    assert_eq!(bool_val.as_bool().unwrap(), true);
}

#[test]
fn test_update_config() {
    let mut filestore =
        FileStore::<NoopCallback>::new("config.json".to_string(), None, None, None).unwrap();

    filestore.set("initial", text("value")).unwrap();

    let updated = filestore
        .update_config(|config: Document| config.insert_key("updated", text("new_value")))
        .unwrap();

    assert!(updated);

    let config = filestore.get_config();
    assert_eq!(obj_len(&config), 2);
    assert!(filestore.get("initial").unwrap().deep_eq(&text("value")));
    assert!(filestore.get("updated").unwrap().deep_eq(&text("new_value")));
}

#[test]
fn test_remove_key() {
    let mut filestore =
        FileStore::<NoopCallback>::new("config.json".to_string(), None, None, None).unwrap();

    filestore.set("key1", text("value1")).unwrap();
    filestore.set("key2", text("value2")).unwrap();

    let config_before = filestore.get_config();
    assert_eq!(obj_len(&config_before), 2);

    filestore.remove("key1").unwrap();

    let config_after = filestore.get_config();
    assert_eq!(obj_len(&config_after), 1);
    assert!(filestore.get("key1").is_none());
    assert!(filestore.get("key2").is_some());
}

#[test]
fn test_reset_config() {
    let default_content = "{\n  \"default_key\": \"default_value\"\n}".to_string();

    let mut filestore = FileStore::<NoopCallback>::new(
        "config.json".to_string(),
        Some("default.json".to_string()),
        None,
        Some(default_content.clone()),
    )
    .unwrap();

    filestore.set("custom_key", text("custom_value")).unwrap();

    let config_before = filestore.get_config();
    assert_eq!(obj_len(&config_before), 2);

    filestore.reset_config(Some(default_content)).unwrap();

    let config_after = filestore.get_config();
    assert_eq!(obj_len(&config_after), 1);
    assert!(filestore
        .get("default_key")
        .unwrap()
        .deep_eq(&text("default_value")));
    assert!(filestore.get("custom_key").is_none());
}

#[test]
fn test_config_change_callback() {
    struct TestCallback {
        called: Rc<Cell<bool>>,
    }

    impl ConfigChangeCallback for TestCallback {
        fn on_config_change(&self, new_config: &Document, old_config: &Document) {
            self.called.set(true);
            assert_eq!(obj_len(old_config), 0);
            assert_eq!(obj_len(new_config), 1);
            assert!(new_config
                .get_key("test")
                .unwrap()
                .deep_eq(&Document::Text("value".to_string())));
        }
    }

    let mut filestore =
        FileStore::<TestCallback>::new("config.json".to_string(), None, None, None).unwrap();

    let callback_called = Rc::new(Cell::new(false));
    let callback = TestCallback {
        called: callback_called.clone(),
    };

    filestore.on_change(callback);

    filestore.set("test", text("value")).unwrap();

    assert!(callback_called.get());
}

#[test]
fn test_unsupported_extension() {
    let result = FileStore::<NoopCallback>::new("config.txt".to_string(), None, None, None);

    assert!(result.is_ok());

    let mut filestore = result.unwrap();
    filestore.set("test", text("value")).unwrap();
    assert!(filestore.get("test").unwrap().deep_eq(&text("value")));

    let save_result = filestore.save_config();
    assert!(save_result.is_err());

    if let Err(FileStoreError::UnsupportedExtension(ext)) = save_result {
        assert_eq!(ext, "txt");
    } else {
        panic!("Expected UnsupportedExtension error");
    }
}

#[test]
fn test_file_not_found_error() {
    let result = FileStore::<NoopCallback>::load_config_from_file("nonexistent.json", None);

    assert!(result.is_err());

    if let Err(FileStoreError::ConfigNotFound(path)) = result {
        assert!(path.contains("nonexistent.json"));
    } else {
        panic!("Expected ConfigNotFound error");
    }
}

#[test]
fn scenario_fresh_store_set_save_reload() {
    let mut store =
        FileStore::<NoopCallback>::new("config.json".to_string(), None, None, None).unwrap();

    let initial = store.get_config();
    assert!(initial.is_obj());
    assert_eq!(obj_len(&initial), 0);

    let changed = store.set("name", text("alice")).unwrap();
    assert!(changed);

    let content = store.save_config().unwrap();
    store.confirm_saved();
    let on_disk: serde_json::Value = serde_json::from_str(&content).unwrap();
    let mut expected_map = serde_json::Map::new();
    expected_map.insert(
        "name".to_string(),
        serde_json::Value::String("alice".to_string()),
    );
    assert_eq!(on_disk, serde_json::Value::Object(expected_map));

    let reloaded =
        FileStore::<NoopCallback>::new("config.json".to_string(), None, Some(content), None)
            .unwrap();
    let expected = Document::empty_obj().insert_key("name", text("alice"));
    assert!(reloaded.get_config().deep_eq(&expected));
}

#[test]
fn scenario_default_path_fallback() {
    let default_content = "{\"a\":1,\"b\":2}".to_string();
    let store = FileStore::<NoopCallback>::new(
        "config.json".to_string(),
        Some("default.json".to_string()),
        None,
        Some(default_content),
    )
    .unwrap();

    let expected = Document::empty_obj()
        .insert_key("a", Document::Num(1))
        .insert_key("b", Document::Num(2));
    assert!(store.get_config().deep_eq(&expected));
}

#[test]
fn scenario_yaml_save_reload_equal() {
    let mut store =
        FileStore::<NoopCallback>::new("config.yml".to_string(), None, None, None).unwrap();
    store.set("host", text("127.0.0.1")).unwrap();
    store.set("port", Document::Num(8080)).unwrap();
    let saved_doc = store.get_config();

    let content = store.save_config().unwrap();
    store.confirm_saved();

    let reloaded =
        FileStore::<NoopCallback>::new("config.yml".to_string(), None, Some(content), None)
            .unwrap();
    assert!(reloaded.get_config().deep_eq(&saved_doc));
}

#[test]
fn update_without_structural_change_is_a_no_op() {
    struct CountingCallback {
        count: Rc<Cell<u32>>,
    }

    impl ConfigChangeCallback for CountingCallback {
        fn on_config_change(&self, _new_config: &Document, _old_config: &Document) {
            self.count.set(self.count.get() + 1);
        }
    }

    let mut store =
        FileStore::<CountingCallback>::new("config.json".to_string(), None, None, None).unwrap();
    store.set("k", text("v")).unwrap();

    let count = Rc::new(Cell::new(0));
    store.on_change(CountingCallback {
        count: count.clone(),
    });

    let changed = store.update_config(|config: Document| config).unwrap();
    assert!(!changed);
    assert_eq!(count.get(), 0);

    let changed = store
        .update_config(|config: Document| config.insert_key("k", text("v")))
        .unwrap();
    assert!(!changed);
    assert_eq!(count.get(), 0);

    let changed = store
        .update_config(|config: Document| config.insert_key("k", text("w")))
        .unwrap();
    assert!(changed);
    assert_eq!(count.get(), 1);
}

#[test]
fn observers_notified_in_registration_order_with_equal_pairs() {
    struct RecordingCallback {
        id: u32,
        log: Rc<RefCell<Vec<(u32, Document, Document)>>>,
    }

    impl ConfigChangeCallback for RecordingCallback {
        fn on_config_change(&self, new_config: &Document, old_config: &Document) {
            self.log
                .borrow_mut()
                .push((self.id, new_config.deep_copy(), old_config.deep_copy()));
        }
    }

    let mut store =
        FileStore::<RecordingCallback>::new("config.json".to_string(), None, None, None).unwrap();

    let log = Rc::new(RefCell::new(Vec::new()));
    store.on_change(RecordingCallback {
        id: 1,
        log: log.clone(),
    });
    store.on_change(RecordingCallback {
        id: 2,
        log: log.clone(),
    });

    store.set("test", text("value")).unwrap();

    let entries = log.borrow();
    assert_eq!(entries.len(), 2);
    assert_eq!(entries[0].0, 1);
    assert_eq!(entries[1].0, 2);
    assert!(entries[0].1.deep_eq(&entries[1].1));
    assert!(entries[0].2.deep_eq(&entries[1].2));
    let expected_new = Document::empty_obj().insert_key("test", text("value"));
    assert!(entries[0].1.deep_eq(&expected_new));
    assert!(entries[0].2.deep_eq(&Document::empty_obj()));
}

#[test]
fn malformed_primary_content_is_a_hard_error() {
    let result = FileStore::<NoopCallback>::new(
        "config.json".to_string(),
        None,
        Some("{not valid json".to_string()),
        None,
    );
    assert!(matches!(result, Err(FileStoreError::Json(_))));

    let result = FileStore::<NoopCallback>::new(
        "config.yaml".to_string(),
        None,
        Some("a: [1, 2".to_string()),
        None,
    );
    assert!(matches!(result, Err(FileStoreError::Yaml(_))));
}

#[test]
fn malformed_default_content_falls_back_to_empty_object() {
    let store = FileStore::<NoopCallback>::new(
        "config.json".to_string(),
        Some("default.json".to_string()),
        None,
        Some("{not valid json".to_string()),
    )
    .unwrap();
    let config = store.get_config();
    assert!(config.is_obj());
    assert_eq!(obj_len(&config), 0);
}

#[test]
fn removing_an_absent_key_reports_no_change() {
    let mut store =
        FileStore::<NoopCallback>::new("config.json".to_string(), None, None, None).unwrap();
    let changed = store.remove("missing").unwrap();
    assert!(!changed);
}

#[test]
fn non_change_events_do_not_fire_on_mutation() {
    struct CountingCallback {
        count: Rc<Cell<u32>>,
    }

    impl ConfigChangeCallback for CountingCallback {
        fn on_config_change(&self, _new_config: &Document, _old_config: &Document) {
            self.count.set(self.count.get() + 1);
        }
    }

    let mut store =
        FileStore::<CountingCallback>::new("config.json".to_string(), None, None, None).unwrap();

    let other_count = Rc::new(Cell::new(0));
    let change_count = Rc::new(Cell::new(0));
    store.register_callback(
        "other".to_string(),
        CountingCallback {
            count: other_count.clone(),
        },
    );
    store.register_callback(
        file_store::store::EVENT_NAME.to_string(),
        CountingCallback {
            count: change_count.clone(),
        },
    );

    store.set("k", text("v")).unwrap();

    assert_eq!(other_count.get(), 0);
    assert_eq!(change_count.get(), 1);
}

#[test]
fn sixty_four_bit_numbers_round_trip() {
    let content = format!("{{\"big\": {}, \"small\": {}}}", i64::MAX, i64::MIN);
    let store =
        FileStore::<NoopCallback>::new("config.json".to_string(), None, Some(content), None)
            .unwrap();
    assert!(store
        .get("big")
        .unwrap()
        .deep_eq(&Document::Num(i64::MAX)));
    assert!(store
        .get("small")
        .unwrap()
        .deep_eq(&Document::Num(i64::MIN)));
}

#[test]
fn numbers_beyond_the_signed_range_are_codec_errors() {
    let content = "{\"huge\": 9223372036854775808}".to_string();
    let result =
        FileStore::<NoopCallback>::new("config.json".to_string(), None, Some(content), None);
    assert!(matches!(result, Err(FileStoreError::Json(_))));
}

#[test]
fn nested_documents_round_trip_through_json() {
    let nested = Document::empty_obj()
        .insert_key(
            "list",
            Document::Arr(vec![
                Document::Num(1),
                Document::Bool(true),
                Document::Null,
                text("x"),
            ]),
        )
        .insert_key("sub", Document::empty_obj().insert_key("k", text("v")));

    let mut store =
        FileStore::<NoopCallback>::new("config.json".to_string(), None, None, None).unwrap();
    let content = store.set_config(nested.deep_copy()).unwrap();

    let reloaded =
        FileStore::<NoopCallback>::new("config.json".to_string(), None, Some(content), None)
            .unwrap();
    assert!(reloaded.get_config().deep_eq(&nested));
}

#[test]
fn confirm_saved_notifies_with_the_last_persisted_snapshot() {
    struct RecordingCallback {
        log: Rc<RefCell<Vec<(Document, Document)>>>,
    }

    impl ConfigChangeCallback for RecordingCallback {
        fn on_config_change(&self, new_config: &Document, old_config: &Document) {
            self.log
                .borrow_mut()
                .push((new_config.deep_copy(), old_config.deep_copy()));
        }
    }

    let mut store =
        FileStore::<RecordingCallback>::new("config.json".to_string(), None, None, None).unwrap();
    let log = Rc::new(RefCell::new(Vec::new()));
    store.on_change(RecordingCallback { log: log.clone() });

    store.set("k", text("v")).unwrap();
    let rendered = store.save_config().unwrap();
    assert_eq!(log.borrow().len(), 1);

    store.confirm_saved();
    assert!(serde_json::from_str::<serde_json::Value>(&rendered).is_ok());
    let entries = log.borrow();
    assert_eq!(entries.len(), 2);
    let expected_current = Document::empty_obj().insert_key("k", text("v"));
    assert!(entries[1].0.deep_eq(&expected_current));
    assert!(entries[1].1.deep_eq(&Document::empty_obj()));
}
