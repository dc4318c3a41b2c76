use bobtools::boblc::archive::literalpool::LiteralPool;

#[test]
fn labels_after_clear_are_new() {
    let mut pool = LiteralPool::new();
    let a = pool.intern_string("a");
    let n = pool.intern_int(7);
    assert_eq!(a, "__lstr0");
    assert_eq!(n, "__lint1");
    assert_eq!(pool.intern_string("a"), "__lstr0");
    pool.clear();
    assert!(pool.is_empty());
    let a2 = pool.intern_string("a");
    assert_eq!(a2, "__lstr2");
    assert_ne!(a2, a);
    assert_eq!(pool.intern_func("main"), "__lfunc3");
}
