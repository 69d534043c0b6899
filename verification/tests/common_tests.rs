use beachhead_companion::common::{optional_result, Config};
use beachhead_companion::companion::Pending;

#[test]
fn default_config() {
    // #### GIVEN ####

    // #### WHEN  ####
    let config: Config = Default::default();

    // #### THEN  ####
    // no panic
    assert!(config.expire_seconds.is_some());
}

#[test]
fn optional_result_full() {
    assert_eq!(optional_result::<&str, &str>(Some(Ok("ok"))), Ok(Some("ok")));
    assert_eq!(optional_result::<&str, &str>(Some(Err("fail"))), Err("fail"));
    assert_eq!(optional_result::<&str, &str>(None), Ok(None));
}

#[test]
fn pending_map_keeps_annotation() {
    let p = Pending { explicit: true, todo: 21u32 };
    let q = p.map(|x: u32| x.wrapping_mul(2));
    assert!(q.explicit);
    assert_eq!(q.todo, 42);
}

#[test]
fn pending_try_map_threads_errors() {
    let p = Pending { explicit: false, todo: "7".to_owned() };
    let q = p.try_map(|s: String| s.parse::<u32>()).expect("parses");
    assert!(!q.explicit);
    assert_eq!(q.todo, 7);

    let bad = Pending { explicit: true, todo: "x".to_owned() };
    assert!(bad.try_map(|s: String| s.parse::<u32>()).is_err());
}
