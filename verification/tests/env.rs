use kolom::env::{Env, EnvError};

#[test]
fn define_then_lookup() {
    let mut e: Env<i64> = Env::new();
    assert_eq!(e.define("ক", 1, false), Ok(()));
    assert_eq!(e.lookup("ক"), Some(&1));
    assert_eq!(e.lookup("খ"), None);
}

#[test]
fn define_twice_in_one_scope_is_refused() {
    let mut e: Env<i64> = Env::new();
    e.define("ক", 1, false).unwrap();
    let r = e.define("ক", 2, false);
    assert_eq!(r, Err(EnvError::AlreadyDefined("ক".to_string())));
    assert_eq!(r.unwrap_err().message(), "'ক' এই স্কোপে আগেই ঘোষিত");
    assert_eq!(e.lookup("ক"), Some(&1));
}

#[test]
fn inner_scope_shadows_and_pop_restores() {
    let mut e: Env<i64> = Env::new();
    e.define("ক", 1, false).unwrap();
    e.push_scope();
    assert_eq!(e.define("ক", 2, false), Ok(()));
    assert_eq!(e.lookup("ক"), Some(&2));
    assert_eq!(e.assign("ক", 3), Ok(()));
    assert_eq!(e.lookup("ক"), Some(&3));
    e.pop_scope();
    assert_eq!(e.lookup("ক"), Some(&1));
}

#[test]
fn assign_reaches_outer_scope() {
    let mut e: Env<i64> = Env::new();
    e.define("যোগ", 0, false).unwrap();
    e.push_scope();
    e.define("i", 5, false).unwrap();
    assert_eq!(e.assign("যোগ", 10), Ok(()));
    e.pop_scope();
    assert_eq!(e.lookup("যোগ"), Some(&10));
    assert_eq!(e.lookup("i"), None);
}

#[test]
fn constant_cannot_be_assigned() {
    let mut e: Env<i64> = Env::new();
    e.define("পাই", 3, true).unwrap();
    let r = e.assign("পাই", 4);
    assert_eq!(r, Err(EnvError::Constant("পাই".to_string())));
    assert_eq!(r.unwrap_err().message(), "ধ্রুবক 'পাই'-এ মান নির্ধারণ করা যাবে না");
    assert_eq!(e.lookup("পাই"), Some(&3));
}

#[test]
fn undeclared_assignment_is_refused() {
    let mut e: Env<i64> = Env::new();
    let r = e.assign("অজানা", 1);
    assert_eq!(r, Err(EnvError::Undeclared("অজানা".to_string())));
    assert_eq!(r.unwrap_err().message(), "অঘোষিত ভ্যারিয়েবল 'অজানা'");
}
