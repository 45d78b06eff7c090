use kolom::symbols::{hex, mangle, mangle_drop, mangle_full_decref};

#[test]
fn symbols_spell_utf8_in_hex() {
    assert_eq!(hex("ab"), "6162");
    assert_eq!(mangle("যোগ"), "kf_e0a6afe0a78be0a697");
    assert_eq!(mangle_drop("x"), "kd_78");
    assert_eq!(mangle_full_decref("x"), "kfd_78");
    assert_eq!(mangle(""), "kf_");
}

#[test]
fn different_names_get_different_symbols() {
    let names = ["ক", "কখ", "খ", "a", "A", "_", "যোগ", "যোগফল"];
    for a in names {
        for b in names {
            assert_eq!(mangle(a) == mangle(b), a == b);
            assert_ne!(mangle(a), mangle_drop(b));
        }
    }
}
