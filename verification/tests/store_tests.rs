use kvlite::store::Store;
use kvlite::Error;

#[test]
fn test_store() {
    let mut kv = Store::new("/tmp/testfile.kvlite");
    let foo = String::from("foo");
    let bar = String::from("bar");

    let s = kv.set(&foo, &bar);
    assert!(s.is_ok());

    let g = kv.get(&foo);
    assert!(g.is_ok());
    assert_eq!(g.unwrap().display(), bar);

    let d = kv.del(&foo);
    assert!(d.is_ok());
}

#[test]
fn store_messages() {
    let mut kv = Store::new("messages.kvlite");
    let foo = String::from("foo");
    let bar = String::from("bar");
    assert_eq!(kv.get(&foo).unwrap().display(), "ERR key not found");
    assert_eq!(kv.del(&foo).unwrap().display(), "ERR key not found");
    assert_eq!(kv.set(&foo, &bar).unwrap().display(), "SET foo");
    assert_eq!(kv.get(&foo).unwrap().display(), "bar");
    assert_eq!(kv.del(&foo).unwrap().display(), "DELETE foo");
    assert_eq!(kv.get(&foo).unwrap().display(), "ERR key not found");
    assert_eq!(
        kv.noop(&String::from("frobnicate")).unwrap().display(),
        "UNKNOWN frobnicate"
    );
}

#[test]
fn error_texts() {
    assert_eq!(Error::IO.description(), "i/o error");
    assert_eq!(Error::NotFound.description(), "key not found");
    assert_eq!(Error::IO.to_string(), "io error");
    assert_eq!(Error::NotFound.to_string(), "not found error");
}
