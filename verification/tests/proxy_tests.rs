use vyper_wrapper::json::Json;
use vyper_wrapper::paths::{base_key, candidate_keys, contracts_key};
use vyper_wrapper::proxy::{
    blueprint_sources, classify, patch_combined_output, patch_standard, patch_standard_output,
    plan_standard_json, Mode, ProxyError,
};
use vyper_wrapper::text::{contains_marker, contains_sub, str_eq, trim_ws};

fn strings(items: &[&str]) -> Vec<String> {
    items.iter().map(|s| s.to_string()).collect()
}

#[test]
fn json_wellformedness() {
    assert!(vyper_wrapper::codec::json_ok("{}"));
    assert!(vyper_wrapper::codec::json_ok("[1,2,{\"a\":null}]"));
    assert!(!vyper_wrapper::codec::json_ok("{"));
    assert!(!vyper_wrapper::codec::json_ok(""));
}

#[test]
fn marker_detection() {
    assert!(contains_marker("# @blue_print\ndef f(): pass"));
    assert!(contains_marker("@blue_print"));
    assert!(contains_marker("xx@blue_printyy"));
    assert!(!contains_marker(""));
    assert!(!contains_marker("# pragma version 0.3.10"));
    assert!(!contains_marker("@blue_prin"));
    assert!(!contains_marker("blue_print"));
}

#[test]
fn substring_search() {
    assert!(contains_sub("abcdef", "cde"));
    assert!(contains_sub("abcdef", ""));
    assert!(!contains_sub("abcdef", "cdf"));
    assert!(!contains_sub("ab", "abc"));
    assert!(contains_sub("aaab", "aab"));
}

#[test]
fn string_equality() {
    assert!(str_eq("", ""));
    assert!(str_eq("abc", "abc"));
    assert!(!str_eq("abc", "abd"));
    assert!(!str_eq("abc", "abcd"));
    assert!(str_eq("héllo", "héllo"));
}

#[test]
fn trimming() {
    assert_eq!(trim_ws("  3d81600a\n"), "3d81600a");
    assert_eq!(trim_ws("\t\r\n x y \n"), "x y");
    assert_eq!(trim_ws(""), "");
    assert_eq!(trim_ws(" \n\t"), "");
    assert_eq!(trim_ws("abc"), "abc");
}

#[test]
fn base_names() {
    assert_eq!(base_key("TestPool.vy"), "TestPool.vy");
    assert_eq!(base_key("./TestPool.vy"), "TestPool.vy");
    assert_eq!(base_key("a/b/c.vy"), "c.vy");
    assert_eq!(base_key("a/b/"), "b");
    assert_eq!(base_key("a/.."), "a/..");
    assert_eq!(base_key("."), ".");
    assert_eq!(base_key(""), "");
}

#[test]
fn contracts_keys() {
    assert_eq!(contracts_key("proj/contracts/Pool.vy"), "contracts/Pool.vy");
    assert_eq!(contracts_key("contracts/Pool.vy"), "contracts/Pool.vy");
    assert_eq!(contracts_key("/x/contracts/a/b.vy"), "contracts/a/b.vy");
    assert_eq!(contracts_key("a/b/c.vy"), "");
    assert_eq!(contracts_key("./contracts/./P.vy"), "contracts/P.vy");
}

#[test]
fn candidate_key_order() {
    let keys = candidate_keys("proj/contracts/Pool.vy");
    assert_eq!(keys, strings(&["Pool.vy", "contracts/Pool.vy"]));
    let keys = candidate_keys("./TestPool.vy");
    assert_eq!(keys, strings(&["TestPool.vy", ""]));
}

#[test]
fn classify_modes() {
    assert_eq!(classify(&strings(&["wrapper", "--version"])), Mode::Version);
    assert_eq!(classify(&strings(&["wrapper", "--standard-json"])), Mode::StandardJson);
    assert_eq!(
        classify(&strings(&["wrapper", "-f", "combined_json", "a.vy"])),
        Mode::CombinedJson
    );
    assert_eq!(classify(&strings(&["wrapper", "-f", "abi", "a.vy"])), Mode::Direct);
    assert_eq!(classify(&strings(&["wrapper", "a.vy"])), Mode::Direct);
    assert_eq!(classify(&strings(&["wrapper"])), Mode::Direct);
    assert_eq!(classify(&strings(&["wrapper", "-f"])), Mode::Direct);
}

#[test]
fn plan_selects_marked_sources() {
    let input = r##"{
        "language": "Vyper",
        "sources": {
            "a.vy": {"content": "# @blue_print\ndef f(): pass"},
            "b.vy": {"content": "# plain"},
            "c.vy": {"content": "x = 1 # @blue_print"}
        },
        "settings": {"outputSelection": {"*": ["*"]}}
    }"##;
    let plan = plan_standard_json(input).unwrap();
    assert_eq!(
        plan,
        vec![
            ("a.vy".to_string(), "# @blue_print\ndef f(): pass".to_string()),
            ("c.vy".to_string(), "x = 1 # @blue_print".to_string()),
        ]
    );
}

#[test]
fn plan_without_sources_is_empty() {
    assert_eq!(plan_standard_json("{}"), Ok(vec![]));
    assert_eq!(plan_standard_json(r#"{"sources":{}}"#), Ok(vec![]));
    assert_eq!(plan_standard_json(r#"{"sources":[1,2]}"#), Ok(vec![]));
}

#[test]
fn plan_rejects_malformed_json() {
    assert_eq!(plan_standard_json("{not json"), Err(ProxyError::MalformedJson));
    assert_eq!(plan_standard_json(""), Err(ProxyError::MalformedJson));
}

#[test]
fn standard_output_patched_at_bytecode_object() {
    let out = r#"{"contracts":{"test.vy":{"test":{"evm":{"bytecode":{"object":"600a"}}}}},"version":"0.3.10"}"#;
    let patches = vec![("test.vy".to_string(), "3d81600a3d39f3fe".to_string())];
    let patched = patch_standard_output(out, &patches).unwrap();
    assert_eq!(
        patched,
        r#"{"contracts":{"test.vy":{"test":{"evm":{"bytecode":{"object":"3d81600a3d39f3fe"}}}}},"version":"0.3.10"}"#
    );
}

#[test]
fn standard_output_unpatched_without_patches() {
    let out = r#"{"contracts":{"test.vy":{"test":{"evm":{"bytecode":{"object":"600a"}}}}},"version":"0.3.10"}"#;
    let patched = patch_standard_output(out, &vec![]).unwrap();
    assert_eq!(patched, out);
}

#[test]
fn standard_output_missing_path_left_alone() {
    let out = r#"{"contracts":{"other.vy":{"c":{"evm":{"bytecode":{"object":"600a"}}}}}}"#;
    let patches = vec![("test.vy".to_string(), "beef".to_string())];
    assert_eq!(patch_standard_output(out, &patches).unwrap(), out);

    let no_evm = r#"{"contracts":{"test.vy":{"c":{"abi":[]}}}}"#;
    let patches = vec![("test.vy".to_string(), "beef".to_string())];
    assert_eq!(patch_standard_output(no_evm, &patches).unwrap(), no_evm);
}

#[test]
fn standard_output_first_contract_patched() {
    let out = r#"{"contracts":{"t.vy":{"a":{"evm":{"bytecode":{"object":"01"}}},"b":{"evm":{"bytecode":{"object":"02"}}}}}}"#;
    let patches = vec![("t.vy".to_string(), "ff".to_string())];
    let patched = patch_standard_output(out, &patches).unwrap();
    assert_eq!(
        patched,
        r#"{"contracts":{"t.vy":{"a":{"evm":{"bytecode":{"object":"ff"}}},"b":{"evm":{"bytecode":{"object":"02"}}}}}}"#
    );
}

#[test]
fn standard_output_object_field_added_when_absent() {
    let out = r#"{"contracts":{"t.vy":{"c":{"evm":{"bytecode":{}}}}}}"#;
    let patches = vec![("t.vy".to_string(), "ff".to_string())];
    let patched = patch_standard_output(out, &patches).unwrap();
    assert_eq!(
        patched,
        r#"{"contracts":{"t.vy":{"c":{"evm":{"bytecode":{"object":"ff"}}}}}}"#
    );
}

#[test]
fn standard_output_non_object_levels_left_alone() {
    let arr = r#"{"contracts":["t.vy"]}"#;
    let patches = vec![("t.vy".to_string(), "ff".to_string())];
    assert_eq!(patch_standard_output(arr, &patches).unwrap(), arr);

    let scalar = r#"{"contracts":{"t.vy":{"c":{"evm":{"bytecode":"raw"}}}}}"#;
    assert_eq!(patch_standard_output(scalar, &patches).unwrap(), scalar);

    let top_scalar = r#"[1,2,3]"#;
    assert_eq!(patch_standard_output(top_scalar, &patches).unwrap(), top_scalar);
}

#[test]
fn standard_output_non_ascii_filename_patched() {
    let out = "{\"contracts\":{\"tëst.vy\":{\"c\":{\"evm\":{\"bytecode\":{\"object\":\"01\"}}}}}}";
    let patches = vec![("tëst.vy".to_string(), "ff".to_string())];
    let patched = patch_standard_output(out, &patches).unwrap();
    assert_eq!(
        patched,
        "{\"contracts\":{\"tëst.vy\":{\"c\":{\"evm\":{\"bytecode\":{\"object\":\"ff\"}}}}}}"
    );
}

#[test]
fn duplicate_keys_collapse_to_the_last() {
    let out = r#"{"a":1,"a":2}"#;
    assert_eq!(patch_standard_output(out, &vec![]).unwrap(), r#"{"a":2}"#);
}

#[test]
fn standard_output_rejects_malformed_json() {
    assert_eq!(
        patch_standard_output("nope", &vec![]),
        Err(ProxyError::MalformedJson)
    );
}

#[test]
fn values_survive_the_round_trip() {
    let out = r#"{"a":1.5,"b":[1,2,null,true,"x"],"c":"a\nb","d":-7,"e":{},"f":1e300}"#;
    let patched = patch_standard_output(out, &vec![]).unwrap();
    let reference: serde_json::Value = serde_json::from_str(out).unwrap();
    assert_eq!(patched, serde_json::to_string(&reference).unwrap());
}

#[test]
fn combined_output_gains_bytecode_by_base_name() {
    let out = r#"{"TestPool.vy":{"abi":[],"bytecode":"0x00"}}"#;
    let patches = vec![("./TestPool.vy".to_string(), "3d81600a3d39f3fe".to_string())];
    let patched = patch_combined_output(out, &patches).unwrap();
    assert_eq!(patched, r#"{"TestPool.vy":{"abi":[],"bytecode":"3d81600a3d39f3fe"}}"#);
}

#[test]
fn combined_output_falls_back_to_contracts_key() {
    let out = r#"{"contracts/Pool.vy":{"abi":[]}}"#;
    let patches = vec![("proj/contracts/Pool.vy".to_string(), "beef".to_string())];
    let patched = patch_combined_output(out, &patches).unwrap();
    assert_eq!(patched, r#"{"contracts/Pool.vy":{"abi":[],"bytecode":"beef"}}"#);
}

#[test]
fn combined_output_unmatched_file_left_alone() {
    let out = r#"{"Other.vy":{"abi":[]}}"#;
    let patches = vec![("proj/contracts/Pool.vy".to_string(), "beef".to_string())];
    assert_eq!(patch_combined_output(out, &patches).unwrap(), out);
}

#[test]
fn combined_output_non_object_entry_tries_next_key() {
    let out = r#"{"Pool.vy":"not an object","contracts/Pool.vy":{"abi":[]}}"#;
    let patches = vec![("proj/contracts/Pool.vy".to_string(), "beef".to_string())];
    let patched = patch_combined_output(out, &patches).unwrap();
    assert_eq!(
        patched,
        r#"{"Pool.vy":"not an object","contracts/Pool.vy":{"abi":[],"bytecode":"beef"}}"#
    );
}

#[test]
fn combined_output_rejects_malformed_json() {
    assert_eq!(
        patch_combined_output("[1,", &vec![]),
        Err(ProxyError::MalformedJson)
    );
}

#[test]
fn blueprint_sources_reads_model_trees() {
    let doc = Json::Obj(vec![(
        "sources".to_string(),
        Json::Obj(vec![
            (
                "m.vy".to_string(),
                Json::Obj(vec![(
                    "content".to_string(),
                    Json::Str("# @blue_print".to_string()),
                )]),
            ),
            (
                "n.vy".to_string(),
                Json::Obj(vec![("content".to_string(), Json::Str("# plain".to_string()))]),
            ),
            ("o.vy".to_string(), Json::Str("no content object".to_string())),
        ]),
    )]);
    assert_eq!(
        blueprint_sources(&doc),
        vec![("m.vy".to_string(), "# @blue_print".to_string())]
    );
}

#[test]
fn patch_standard_on_model_tree() {
    let doc = Json::Obj(vec![(
        "contracts".to_string(),
        Json::Obj(vec![(
            "t.vy".to_string(),
            Json::Obj(vec![(
                "c".to_string(),
                Json::Obj(vec![(
                    "evm".to_string(),
                    Json::Obj(vec![(
                        "bytecode".to_string(),
                        Json::Obj(vec![("object".to_string(), Json::Str("01".to_string()))]),
                    )]),
                )]),
            )]),
        )]),
    )]);
    let patched = patch_standard(doc, "t.vy", "ff");
    match patched {
        Json::Obj(top) => match &top[0].1 {
            Json::Obj(cs) => match &cs[0].1 {
                Json::Obj(fc) => match &fc[0].1 {
                    Json::Obj(con) => match &con[0].1 {
                        Json::Obj(evm) => match &evm[0].1 {
                            Json::Obj(bc) => match &bc[0].1 {
                                Json::Str(s) => assert_eq!(s, "ff"),
                                _ => panic!("object is not a string"),
                            },
                            _ => panic!("bytecode is not an object"),
                        },
                        _ => panic!("evm is not an object"),
                    },
                    _ => panic!("contract is not an object"),
                },
                _ => panic!("file entry is not an object"),
            },
            _ => panic!("contracts is not an object"),
        },
        _ => panic!("document is not an object"),
    }
}
