use hhbc::string_utils::{cmp, fix_casing, has_ns, is_class, is_closure_name, is_parent,
    is_self, is_static, is_xhp, mangle_meth_caller, prefix_namespace, strip_dollar,
    strip_global_ns, strip_ns, strip_type_list, unmangle_closure};

#[test]
fn prefix_namespace_test() {
    let namespace = "ns";
    let some_string = "test";
    assert_eq!(prefix_namespace(&namespace, &some_string), "ns\\test");
}

#[test]
fn strip_global_ns_test() {
    let some_string = "\\test";
    assert_eq!(strip_global_ns(&some_string), "test");
}

#[test]
fn strip_ns_test() {
    let with_ns = "ns1\\test";
    let without_ns = "test";
    assert_eq!(strip_ns(&with_ns), "test");
    assert_eq!(strip_ns(&without_ns), without_ns);
}

#[test]
fn strip_hh_ns() {
    let with_ns = "HH\\test";
    let without_ns = "test";
    assert_eq!(strip_ns(&with_ns), "test");
    assert_eq!(strip_ns(&without_ns), without_ns);
}

#[test]
fn strip_hh_ns_2() {
    let with_ns = "\\HH\\test";
    let without_ns = "test";
    assert_eq!(strip_ns(&with_ns), "test");
    assert_eq!(strip_ns(&without_ns), without_ns);
}

#[test]
fn strip_hh_ns_prefixes_only() {
    assert_eq!(hhbc::string_utils::strip_hh_ns("\\HH\\test"), "test");
    assert_eq!(hhbc::string_utils::strip_hh_ns("HH\\test"), "test");
    assert_eq!(hhbc::string_utils::strip_hh_ns("test"), "test");
    assert_eq!(hhbc::string_utils::strip_hh_ns("ns\\HH\\test"), "ns\\HH\\test");
}

#[test]
fn has_ns_test() {
    let with_ns = "\\test";
    let without_ns = "test";
    assert_eq!(has_ns(&with_ns), true);
    assert_eq!(has_ns(&without_ns), false);
}

#[test]
fn strip_type_list_test() {
    let s = "MutableMap<Tk, Tv>";
    assert_eq!(strip_type_list(&s), "MutableMap");
}

#[test]
fn cmp_test() {
    let s1 = "ns1\\s1";
    let s1_uppercase = "NS1\\S1";

    let ns2_s1 = "ns2\\s1";
    let ns2_s1_uppercase = "NS2\\S1";

    let ns2_s2 = "ns2\\s2";

    assert_eq!(true, cmp(&s1, &s1_uppercase, false, false));
    assert_eq!(false, cmp(&s1, &s1_uppercase, true, false));
    assert_eq!(true, cmp(&s1, &s1_uppercase, false, true));
    assert_eq!(false, cmp(&s1, &s1_uppercase, true, true));

    assert_eq!(false, cmp(&s1, &ns2_s1, false, false));
    assert_eq!(false, cmp(&s1, &ns2_s1, true, false));
    assert_eq!(true, cmp(&s1, &ns2_s1, false, true));
    assert_eq!(true, cmp(&s1, &ns2_s1, true, true));

    assert_eq!(false, cmp(&s1, &ns2_s1_uppercase, false, false));
    assert_eq!(false, cmp(&s1, &ns2_s1_uppercase, true, false));
    assert_eq!(true, cmp(&s1, &ns2_s1_uppercase, false, true));
    assert_eq!(false, cmp(&s1, &ns2_s1_uppercase, true, true));

    assert_eq!(false, cmp(&s1, &ns2_s2, false, false));
    assert_eq!(false, cmp(&s1, &ns2_s2, true, false));
    assert_eq!(false, cmp(&s1, &ns2_s2, false, true));
    assert_eq!(false, cmp(&s1, &ns2_s2, true, true));
}

#[test]
fn is_self_test() {
    let s1 = "self";
    let s2 = "not_self";

    assert_eq!(is_self(&s1), true);
    assert_eq!(is_self(&s2), false);
}

#[test]
fn is_parent_test() {
    let s1 = "parent";
    let s2 = "not_parent";

    assert_eq!(is_parent(&s1), true);
    assert_eq!(is_parent(&s2), false);
}

#[test]
fn is_static_test() {
    let s1 = "static";
    let s2 = "not_static";

    assert_eq!(is_static(&s1), true);
    assert_eq!(is_static(&s2), false);
}

#[test]
fn is_class_test() {
    let s1 = "class";
    let s2 = "not_a_class";

    assert_eq!(is_class(&s1), true);
    assert_eq!(is_class(&s2), false);
}

#[test]
fn mangle_meth_caller_test() {
    let cls = "SomeClass";
    let f = "some_function";

    assert_eq!(mangle_meth_caller(cls, f), "\\MethCaller$SomeClass$some_function");
}

#[test]
fn is_xhp_test() {
    assert_eq!(is_xhp(":foo"), true);
    assert_eq!(is_xhp("foo"), false);
    assert_eq!(is_xhp(""), false);
}

#[test]
fn lowercase_vector() {
    assert_eq!(fix_casing("vector"), "Vector");
}

#[test]
fn mixedcase_vector() {
    assert_eq!(fix_casing("vEcTor"), "Vector");
}

#[test]
fn uppercase_vector() {
    assert_eq!(fix_casing("VECTOR"), "Vector");
}

#[test]
fn lowercase_immvector() {
    assert_eq!(fix_casing("immvector"), "ImmVector");
}

#[test]
fn mixedcase_immvector() {
    assert_eq!(fix_casing("immvEcTor"), "ImmVector");
}

#[test]
fn uppercase_immvector() {
    assert_eq!(fix_casing("IMMVECTOR"), "ImmVector");
}

#[test]
fn lowercase_set() {
    assert_eq!(fix_casing("set"), "Set");
}

#[test]
fn mixedcase_set() {
    assert_eq!(fix_casing("SeT"), "Set");
}

#[test]
fn uppercase_set() {
    assert_eq!(fix_casing("SET"), "Set");
}

#[test]
fn lowercase_immset() {
    assert_eq!(fix_casing("immset"), "ImmSet");
}

#[test]
fn mixedcase_immset() {
    assert_eq!(fix_casing("ImMSeT"), "ImmSet");
}

#[test]
fn uppercase_immset() {
    assert_eq!(fix_casing("IMMSET"), "ImmSet");
}

#[test]
fn lowercase_map() {
    assert_eq!(fix_casing("map"), "Map");
}

#[test]
fn mixedcase_map() {
    assert_eq!(fix_casing("MaP"), "Map");
}

#[test]
fn uppercase_map() {
    assert_eq!(fix_casing("MAP"), "Map");
}

#[test]
fn lowercase_immmap() {
    assert_eq!(fix_casing("immmap"), "ImmMap");
}

#[test]
fn mixedcase_immmap() {
    assert_eq!(fix_casing("immMaP"), "ImmMap");
}

#[test]
fn uppercase_immmap() {
    assert_eq!(fix_casing("IMMMAP"), "ImmMap");
}

#[test]
fn lowercase_pair() {
    assert_eq!(fix_casing("pair"), "Pair");
}

#[test]
fn mixedcase_pair() {
    assert_eq!(fix_casing("pAiR"), "Pair");
}

#[test]
fn uppercase_pair() {
    assert_eq!(fix_casing("PAIR"), "Pair");
}

#[test]
fn non_hack_collection_returns_original_string() {
    assert_eq!(fix_casing("SomeStRinG"), "SomeStRinG");
}

#[test]
fn hack_collection_with_leading_whitespace_returns_original_string() {
    assert_eq!(fix_casing(" pair"), " pair");
}

#[test]
fn hack_collection_with_trailing_whitespace_returns_original_string() {
    assert_eq!(fix_casing("pair "), "pair ");
}

#[test]
fn strip_single_leading_dollar() {
    assert_eq!(strip_dollar("$foo"), "foo");
}

#[test]
fn return_string_if_no_leading_dollar() {
    assert_eq!(strip_dollar("foo"), "foo");
}

#[test]
fn empty_string() {
    assert_eq!(strip_dollar(""), "");
}

#[test]
fn string_of_single_dollar() {
    assert_eq!(strip_dollar("$"), "");
}

#[test]
fn string_utils_idx_of_one() {
    assert_eq!(unmangle_closure("Closure$foo"), Some("foo"));
}

#[test]
fn string_utils_idx_of_two() {
    assert_eq!(unmangle_closure("Closure$foo#2"), Some("foo"));
}

#[test]
fn string_utils_non_closure() {
    assert_eq!(unmangle_closure("SomePrefix$foo"), None);
    assert_eq!(unmangle_closure("SomePrefix$foo#2"), None);
}

#[test]
fn closure_1() {
    assert_eq!(is_closure_name("Closure$foo"), true);
}

#[test]
fn closure_2() {
    assert_eq!(is_closure_name("Closure$foo#2"), true);
}

#[test]
fn non_closure() {
    assert_eq!(is_closure_name("SomePrefix$foo"), false);
    assert_eq!(is_closure_name("SomePrefix$foo#2"), false);
}

#[test]
fn mangle_class_idx_of_one() {
    assert_eq!(hhbc::string_utils::mangle_class("foo", "bar", 1), "foo$bar");
}

#[test]
fn mangle_class_idx_of_two() {
    assert_eq!(hhbc::string_utils::mangle_class("foo", "bar", 2), "foo$bar#2");
}

#[test]
fn mangle_closure_idx_of_one() {
    assert_eq!(hhbc::string_utils::mangle_closure("foo", 1), "Closure$foo");
}

#[test]
fn mangle_closure_idx_of_two() {
    assert_eq!(hhbc::string_utils::mangle_closure("foo", 2), "Closure$foo#2");
}
