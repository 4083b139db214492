//! The wrapper's decision logic: classifying an invocation, selecting the
//! sources that ask for blueprint treatment, and patching the compiler's
//! JSON output.  The surrounding process handling — spawning the real
//! compiler, piping standard input and output — stays outside the library
//! and hands these functions plain values.

use vstd::prelude::*;
use crate::codec::{parse_of, render_of, parse_json, render_json};
use crate::json::{
    Json, JsonV, jv, jv_entries, has_key, get_key, set_key, lemma_jv_entries,
    lemma_key_idx, lemma_dv_push, find_key, vec_set_key,
};
use crate::paths::{base_key_of, contracts_key_of, candidate_keys};
use crate::text::{has_marker, contains_marker, str_eq};

verus! {

/// The invocation shapes the wrapper recognises.
#[derive(Clone, Copy, PartialEq, Eq, Structural, Debug)]
pub enum Mode {
    /// `--version`: relay the real compiler's version text.
    Version,
    /// `--standard-json`: patch bytecode inside standard-JSON output.
    StandardJson,
    /// `-f combined_json ...`: patch bytecode inside combined-JSON output.
    CombinedJson,
    /// Anything else: pure passthrough.
    Direct,
}

/// The mode an argument vector (program name included) selects.
pub open spec fn mode_of(args: Seq<Seq<char>>) -> Mode {
    if args.len() >= 2 && args[1] == "--version"@ {
        Mode::Version
    } else if args.len() >= 2 && args[1] == "--standard-json"@ {
        Mode::StandardJson
    } else if args.len() >= 3 && args[1] == "-f"@ && args[2] == "combined_json"@ {
        Mode::CombinedJson
    } else {
        Mode::Direct
    }
}

/// Classifies an argument vector (program name included, as received).
pub fn classify(args: &Vec<String>) -> (m: Mode)
    ensures
        m == mode_of(args.deep_view()),
{
    proof {
        assert(args.deep_view().len() == args@.len());
        assert(forall|i: int|
            0 <= i < args@.len() ==> args.deep_view()[i] == #[trigger] args@[i].deep_view());
    }
    if args.len() >= 2 && str_eq(args[1].as_str(), "--version") {
        Mode::Version
    } else if args.len() >= 2 && str_eq(args[1].as_str(), "--standard-json") {
        Mode::StandardJson
    } else if args.len() >= 3 && str_eq(args[1].as_str(), "-f") && str_eq(
        args[2].as_str(),
        "combined_json",
    ) {
        Mode::CombinedJson
    } else {
        Mode::Direct
    }
}

/// The error a pipeline step reports: the JSON parser rejected the text it
/// was given, or the text the real compiler produced.  Fatal for the whole
/// invocation.
#[derive(Clone, Copy, PartialEq, Eq, Structural, Debug)]
pub enum ProxyError {
    MalformedJson,
}

// ---------------------------------------------------------------------------
// Selecting blueprint sources from standard-JSON input
// ---------------------------------------------------------------------------
/// The text of a source entry's `content` field, when the entry is an object
/// whose `content` is a string.
pub open spec fn content_of(v: JsonV) -> Option<Seq<char>> {
    if v is Obj && has_key(v->Obj_0, "content"@) && get_key(v->Obj_0, "content"@) is Str {
        Some(get_key(v->Obj_0, "content"@)->Str_0)
    } else {
        None
    }
}

/// A source entry that asks for blueprint treatment: its content exists and
/// contains the marker.
pub open spec fn selected(e: (Seq<char>, JsonV)) -> bool {
    content_of(e.1) matches Some(c) && has_marker(c)
}

/// The `(filename, content)` pairs of the selected entries, in order.
pub open spec fn selected_list(srcs: Seq<(Seq<char>, JsonV)>) -> Seq<(Seq<char>, Seq<char>)>
    decreases srcs.len(),
{
    if srcs.len() == 0 {
        Seq::empty()
    } else {
        let r = selected_list(srcs.drop_last());
        let e = srcs.last();
        if selected(e) {
            r.push((e.0, content_of(e.1)->0))
        } else {
            r
        }
    }
}

/// The entries of a standard-JSON input document's `sources` object; empty
/// when the document has none.
pub open spec fn sources_entries(j: JsonV) -> Seq<(Seq<char>, JsonV)> {
    if j is Obj && has_key(j->Obj_0, "sources"@) && get_key(j->Obj_0, "sources"@) is Obj {
        get_key(j->Obj_0, "sources"@)->Obj_0
    } else {
        Seq::empty()
    }
}

/// The selected sources of a standard-JSON input document: the entries of
/// its `sources` object whose content carries the marker.  Empty when the
/// document has no `sources` object.
pub open spec fn spec_blueprint_sources(j: JsonV) -> Seq<(Seq<char>, Seq<char>)> {
    selected_list(sources_entries(j))
}

/// Collects the `(filename, content)` pairs of the sources that ask for
/// blueprint treatment, in the order the document lists them.
pub fn blueprint_sources(input: &Json) -> (r: Vec<(String, String)>)
    ensures
        r.deep_view() == spec_blueprint_sources(jv(*input)),
{
    let mut out: Vec<(String, String)> = Vec::new();
    proof {
        assert(out.deep_view() =~= Seq::<(Seq<char>, Seq<char>)>::empty());
    }
    match input {
        Json::Obj(top) => {
            proof {
                lemma_jv_entries(top@);
                lemma_key_idx(jv_entries(top@), "sources"@);
            }
            let si = find_key(top, "sources");
            if si == top.len() {
                return out;
            }
            match &top[si].1 {
                Json::Obj(srcs) => {
                    let ghost e = jv_entries(srcs@);
                    proof {
                        lemma_jv_entries(srcs@);
                        assert(e.subrange(0, 0) =~= Seq::<(Seq<char>, JsonV)>::empty());
                    }
                    let mut i: usize = 0;
                    while i < srcs.len()
                        invariant
                            i <= srcs.len(),
                            e == jv_entries(srcs@),
                            e.len() == srcs@.len(),
                            forall|t: int|
                                0 <= t < srcs@.len() ==> #[trigger] e[t] == (
                                    srcs@[t].0@,
                                    jv(srcs@[t].1),
                                ),
                            out.deep_view() == selected_list(e.subrange(0, i as int)),
                        decreases srcs.len() - i,
                    {
                        proof {
                            assert(e.subrange(0, i + 1).drop_last() =~= e.subrange(0, i as int));
                            assert(e.subrange(0, i + 1).last() == e[i as int]);
                        }
                        match &srcs[i].1 {
                            Json::Obj(src) => {
                                proof {
                                    lemma_jv_entries(src@);
                                    lemma_key_idx(jv_entries(src@), "content"@);
                                }
                                let ci = find_key(src, "content");
                                if ci < src.len() {
                                    match &src[ci].1 {
                                        Json::Str(c) => {
                                            if contains_marker(c.as_str()) {
                                                let name = srcs[i].0.as_str().to_owned();
                                                let text = c.as_str().to_owned();
                                                let ghost out0 = out;
                                                let pair = (name, text);
                                                out.push(pair);
                                                proof {
                                                    lemma_dv_push(out0, out, pair);
                                                }
                                            }
                                        },
                                        _ => {},
                                    }
                                }
                            },
                            _ => {},
                        }
                        i += 1;
                    }
                    proof {
                        assert(e.subrange(0, srcs@.len() as int) =~= e);
                    }
                    out
                },
                _ => out,
            }
        },
        _ => out,
    }
}

// ---------------------------------------------------------------------------
// Patching standard-JSON output
// ---------------------------------------------------------------------------
/// The location patched for one file exists in `j`: an object tree
/// `contracts.<fname>.<first contract>.evm.bytecode` with an object at every
/// step.
pub open spec fn std_path_ok(j: JsonV, fname: Seq<char>) -> bool {
    &&& j is Obj
    &&& has_key(j->Obj_0, "contracts"@)
    &&& get_key(j->Obj_0, "contracts"@) is Obj
    &&& {
        let cs = get_key(j->Obj_0, "contracts"@)->Obj_0;
        &&& has_key(cs, fname)
        &&& get_key(cs, fname) is Obj
        &&& {
            let fc = get_key(cs, fname)->Obj_0;
            &&& fc.len() > 0
            &&& fc[0].1 is Obj
            &&& {
                let con = fc[0].1->Obj_0;
                &&& has_key(con, "evm"@)
                &&& get_key(con, "evm"@) is Obj
                &&& {
                    let evm = get_key(con, "evm"@)->Obj_0;
                    &&& has_key(evm, "bytecode"@)
                    &&& get_key(evm, "bytecode"@) is Obj
                }
            }
        }
    }
}

/// The patch for one file in standard-JSON output: when the patched location
/// exists, its `object` field becomes the blueprint bytecode; otherwise the
/// document is left as it was.
pub open spec fn spec_patch_std(j: JsonV, fname: Seq<char>, code: Seq<char>) -> JsonV {
    if !std_path_ok(j, fname) {
        j
    } else {
        let top = j->Obj_0;
        let cs = get_key(top, "contracts"@)->Obj_0;
        let fc = get_key(cs, fname)->Obj_0;
        let con = fc[0].1->Obj_0;
        let evm = get_key(con, "evm"@)->Obj_0;
        let bc = get_key(evm, "bytecode"@)->Obj_0;
        let bc2 = set_key(bc, "object"@, JsonV::Str(code));
        let evm2 = set_key(evm, "bytecode"@, JsonV::Obj(bc2));
        let con2 = set_key(con, "evm"@, JsonV::Obj(evm2));
        let fc2 = fc.update(0, (fc[0].0, JsonV::Obj(con2)));
        let cs2 = set_key(cs, fname, JsonV::Obj(fc2));
        let top2 = set_key(top, "contracts"@, JsonV::Obj(cs2));
        JsonV::Obj(top2)
    }
}

/// Decides whether the patched location exists for `fname`.
fn std_path_check(out: &Json, fname: &str) -> (r: bool)
    ensures
        r == std_path_ok(jv(*out), fname@),
{
    match out {
        Json::Obj(top) => {
            proof {
                lemma_jv_entries(top@);
                lemma_key_idx(jv_entries(top@), "contracts"@);
            }
            let ci = find_key(top, "contracts");
            if ci == top.len() {
                return false;
            }
            match &top[ci].1 {
                Json::Obj(cs) => {
                    proof {
                        lemma_jv_entries(cs@);
                        lemma_key_idx(jv_entries(cs@), fname@);
                    }
                    let fi = find_key(cs, fname);
                    if fi == cs.len() {
                        return false;
                    }
                    match &cs[fi].1 {
                        Json::Obj(fc) => {
                            if fc.len() == 0 {
                                proof {
                                    lemma_jv_entries(fc@);
                                }
                                return false;
                            }
                            proof {
                                lemma_jv_entries(fc@);
                            }
                            match &fc[0].1 {
                                Json::Obj(con) => {
                                    proof {
                                        lemma_jv_entries(con@);
                                        lemma_key_idx(jv_entries(con@), "evm"@);
                                    }
                                    let ei = find_key(con, "evm");
                                    if ei == con.len() {
                                        return false;
                                    }
                                    match &con[ei].1 {
                                        Json::Obj(evm) => {
                                            proof {
                                                lemma_jv_entries(evm@);
                                                lemma_key_idx(jv_entries(evm@), "bytecode"@);
                                            }
                                            let bi = find_key(evm, "bytecode");
                                            if bi == evm.len() {
                                                return false;
                                            }
                                            match &evm[bi].1 {
                                                Json::Obj(_) => true,
                                                _ => false,
                                            }
                                        },
                                        _ => false,
                                    }
                                },
                                _ => false,
                            }
                        },
                        _ => false,
                    }
                },
                _ => false,
            }
        },
        _ => false,
    }
}

/// Performs the standard-JSON patch for one file whose patched location
/// exists.
fn patch_standard_inner(out: Json, fname: &str, code: &str) -> (r: Json)
    requires
        std_path_ok(jv(out), fname@),
    ensures
        jv(r) == spec_patch_std(jv(out), fname@, code@),
{
    let ghost j0 = jv(out);
    match out {
        Json::Obj(mut top) => {
            let ghost top0 = top;
            proof {
                lemma_jv_entries(top@);
                lemma_key_idx(jv_entries(top@), "contracts"@);
            }
            let ci = find_key(&top, "contracts");
            let (ck, cv) = top.remove(ci);
            match cv {
                Json::Obj(mut cs) => {
                    let ghost cs0 = cs;
                    proof {
                        lemma_jv_entries(cs@);
                        lemma_key_idx(jv_entries(cs@), fname@);
                    }
                    let fi = find_key(&cs, fname);
                    let (fk, fv) = cs.remove(fi);
                    match fv {
                        Json::Obj(mut fc) => {
                            let ghost fc0 = fc;
                            proof {
                                lemma_jv_entries(fc@);
                            }
                            let (nk, nv) = fc.remove(0);
                            match nv {
                                Json::Obj(mut con) => {
                                    let ghost con0 = con;
                                    proof {
                                        lemma_jv_entries(con@);
                                        lemma_key_idx(jv_entries(con@), "evm"@);
                                    }
                                    let ei = find_key(&con, "evm");
                                    let (ek, ev) = con.remove(ei);
                                    match ev {
                                        Json::Obj(mut evm) => {
                                            let ghost evm0 = evm;
                                            proof {
                                                lemma_jv_entries(evm@);
                                                lemma_key_idx(jv_entries(evm@), "bytecode"@);
                                            }
                                            let bi = find_key(&evm, "bytecode");
                                            let (bk, bv) = evm.remove(bi);
                                            match bv {
                                                Json::Obj(mut bc) => {
                                                    vec_set_key(
                                                        &mut bc,
                                                        "object",
                                                        Json::Str(code.to_owned()),
                                                    );
                                                    evm.insert(bi, (bk, Json::Obj(bc)));
                                                    proof {
                                                        assert(evm@ =~= evm0@.update(
                                                            bi as int,
                                                            (evm0@[bi as int].0, Json::Obj(bc)),
                                                        ));
                                                        lemma_jv_entries(evm@);
                                                        lemma_jv_entries(evm0@);
                                                        assert(jv_entries(evm@) =~= set_key(
                                                            jv_entries(evm0@),
                                                            "bytecode"@,
                                                            jv(Json::Obj(bc)),
                                                        ));
                                                    }
                                                    con.insert(ei, (ek, Json::Obj(evm)));
                                                    proof {
                                                        assert(con@ =~= con0@.update(
                                                            ei as int,
                                                            (con0@[ei as int].0, Json::Obj(evm)),
                                                        ));
                                                        lemma_jv_entries(con@);
                                                        lemma_jv_entries(con0@);
                                                        assert(jv_entries(con@) =~= set_key(
                                                            jv_entries(con0@),
                                                            "evm"@,
                                                            jv(Json::Obj(evm)),
                                                        ));
                                                    }
                                                    fc.insert(0, (nk, Json::Obj(con)));
                                                    proof {
                                                        assert(fc@ =~= fc0@.update(
                                                            0,
                                                            (fc0@[0].0, Json::Obj(con)),
                                                        ));
                                                        lemma_jv_entries(fc@);
                                                        lemma_jv_entries(fc0@);
                                                        assert(jv_entries(fc@) =~= jv_entries(
                                                            fc0@,
                                                        ).update(0, (jv_entries(fc0@)[0].0, jv(Json::Obj(con)))));
                                                    }
                                                    cs.insert(fi, (fk, Json::Obj(fc)));
                                                    proof {
                                                        assert(cs@ =~= cs0@.update(
                                                            fi as int,
                                                            (cs0@[fi as int].0, Json::Obj(fc)),
                                                        ));
                                                        lemma_jv_entries(cs@);
                                                        lemma_jv_entries(cs0@);
                                                        assert(jv_entries(cs@) =~= set_key(
                                                            jv_entries(cs0@),
                                                            fname@,
                                                            jv(Json::Obj(fc)),
                                                        ));
                                                    }
                                                    top.insert(ci, (ck, Json::Obj(cs)));
                                                    proof {
                                                        assert(top@ =~= top0@.update(
                                                            ci as int,
                                                            (top0@[ci as int].0, Json::Obj(cs)),
                                                        ));
                                                        lemma_jv_entries(top@);
                                                        lemma_jv_entries(top0@);
                                                        assert(jv_entries(top@) =~= set_key(
                                                            jv_entries(top0@),
                                                            "contracts"@,
                                                            jv(Json::Obj(cs)),
                                                        ));
                                                    }
                                                    Json::Obj(top)
                                                },
                                                _ => {
                                                    proof {
                                                        assert(false);
                                                    }
                                                    Json::Null
                                                },
                                            }
                                        },
                                        _ => {
                                            proof {
                                                assert(false);
                                            }
                                            Json::Null
                                        },
                                    }
                                },
                                _ => {
                                    proof {
                                        assert(false);
                                    }
                                    Json::Null
                                },
                            }
                        },
                        _ => {
                            proof {
                                assert(false);
                            }
                            Json::Null
                        },
                    }
                },
                _ => {
                    proof {
                        assert(false);
                    }
                    Json::Null
                },
            }
        },
        _ => {
            proof {
                assert(false);
            }
            Json::Null
        },
    }
}

/// The standard-JSON patch for one file: sets
/// `contracts.<fname>.<first contract>.evm.bytecode.object` to `code` when
/// that location exists, and leaves the document unchanged otherwise.
pub fn patch_standard(out: Json, fname: &str, code: &str) -> (r: Json)
    ensures
        jv(r) == spec_patch_std(jv(out), fname@, code@),
{
    if std_path_check(&out, fname) {
        patch_standard_inner(out, fname, code)
    } else {
        out
    }
}

// ---------------------------------------------------------------------------
// Patching combined-JSON output
// ---------------------------------------------------------------------------
/// A candidate key hits when the output object has an entry under it whose
/// value is itself an object.
pub open spec fn combined_key_hits(j: JsonV, k: Seq<char>) -> bool {
    j is Obj && has_key(j->Obj_0, k) && get_key(j->Obj_0, k) is Obj
}

/// The combined-JSON patch at one hit key: the entry's `bytecode` field
/// becomes the blueprint bytecode.
pub open spec fn spec_patch_combined_entry(j: JsonV, k: Seq<char>, code: Seq<char>) -> JsonV {
    let top = j->Obj_0;
    let inner = get_key(top, k)->Obj_0;
    JsonV::Obj(set_key(top, k, JsonV::Obj(set_key(inner, "bytecode"@, JsonV::Str(code)))))
}

/// The combined-JSON patch for one file: the first candidate key that hits
/// is patched; when none hits the document is left unchanged.
pub open spec fn spec_patch_combined_one(j: JsonV, keys: Seq<Seq<char>>, code: Seq<char>) -> JsonV
    decreases keys.len(),
{
    if keys.len() == 0 {
        j
    } else if combined_key_hits(j, keys[0]) {
        spec_patch_combined_entry(j, keys[0], code)
    } else {
        spec_patch_combined_one(j, keys.drop_first(), code)
    }
}

/// Decides whether a candidate key hits.
fn combined_hits(out: &Json, k: &str) -> (r: bool)
    ensures
        r == combined_key_hits(jv(*out), k@),
{
    match out {
        Json::Obj(top) => {
            proof {
                lemma_jv_entries(top@);
                lemma_key_idx(jv_entries(top@), k@);
            }
            let i = find_key(top, k);
            if i == top.len() {
                return false;
            }
            match &top[i].1 {
                Json::Obj(_) => true,
                _ => false,
            }
        },
        _ => false,
    }
}

/// Performs the combined-JSON patch at a hit key.
fn patch_combined_at(out: Json, k: &str, code: &str) -> (r: Json)
    requires
        combined_key_hits(jv(out), k@),
    ensures
        jv(r) == spec_patch_combined_entry(jv(out), k@, code@),
{
    match out {
        Json::Obj(mut top) => {
            let ghost top0 = top;
            proof {
                lemma_jv_entries(top@);
                lemma_key_idx(jv_entries(top@), k@);
            }
            let i = find_key(&top, k);
            let (key, val) = top.remove(i);
            match val {
                Json::Obj(mut inner) => {
                    vec_set_key(&mut inner, "bytecode", Json::Str(code.to_owned()));
                    top.insert(i, (key, Json::Obj(inner)));
                    proof {
                        assert(top@ =~= top0@.update(
                            i as int,
                            (top0@[i as int].0, Json::Obj(inner)),
                        ));
                        lemma_jv_entries(top@);
                        lemma_jv_entries(top0@);
                        assert(jv_entries(top@) =~= set_key(
                            jv_entries(top0@),
                            k@,
                            jv(Json::Obj(inner)),
                        ));
                    }
                    Json::Obj(top)
                },
                _ => {
                    proof {
                        assert(false);
                    }
                    Json::Null
                },
            }
        },
        _ => {
            proof {
                assert(false);
            }
            Json::Null
        },
    }
}

/// Tries the candidate keys from `from` on, patching at the first hit.
fn patch_combined_keys(out: Json, keys: &Vec<String>, from: usize, code: &str) -> (r: Json)
    requires
        from <= keys.len(),
    ensures
        jv(r) == spec_patch_combined_one(jv(out), keys.deep_view().skip(from as int), code@),
    decreases keys.len() - from,
{
    let ghost kdv = keys.deep_view();
    proof {
        assert(kdv.len() == keys@.len());
        assert(forall|i: int|
            0 <= i < keys@.len() ==> kdv[i] == #[trigger] keys@[i].deep_view());
    }
    if from == keys.len() {
        proof {
            assert(kdv.skip(from as int) =~= Seq::<Seq<char>>::empty());
        }
        out
    } else {
        proof {
            assert(kdv.skip(from as int)[0] == kdv[from as int]);
            assert(kdv.skip(from as int).drop_first() =~= kdv.skip(from as int + 1));
        }
        if combined_hits(&out, keys[from].as_str()) {
            patch_combined_at(out, keys[from].as_str(), code)
        } else {
            patch_combined_keys(out, keys, from + 1, code)
        }
    }
}

/// The combined-JSON patch for one source file: its candidate keys are tried
/// in order and the first hit gains the blueprint bytecode.
pub fn patch_combined(out: Json, path: &str, code: &str) -> (r: Json)
    ensures
        jv(r) == spec_patch_combined_one(
            jv(out),
            seq![base_key_of(path@), contracts_key_of(path@)],
            code@,
        ),
{
    let keys = candidate_keys(path);
    proof {
        assert(keys.deep_view().skip(0) =~= keys.deep_view());
    }
    patch_combined_keys(out, &keys, 0, code)
}

// ---------------------------------------------------------------------------
// Whole-invocation pipelines
// ---------------------------------------------------------------------------
/// All standard-JSON patches applied in order.
pub open spec fn apply_std_patches(j: JsonV, ps: Seq<(Seq<char>, Seq<char>)>) -> JsonV
    decreases ps.len(),
{
    if ps.len() == 0 {
        j
    } else {
        apply_std_patches(spec_patch_std(j, ps[0].0, ps[0].1), ps.drop_first())
    }
}

/// All combined-JSON patches applied in order.
pub open spec fn apply_combined_patches(j: JsonV, ps: Seq<(Seq<char>, Seq<char>)>) -> JsonV
    decreases ps.len(),
{
    if ps.len() == 0 {
        j
    } else {
        apply_combined_patches(
            spec_patch_combined_one(
                j,
                seq![base_key_of(ps[0].0), contracts_key_of(ps[0].0)],
                ps[0].1,
            ),
            ps.drop_first(),
        )
    }
}

/// Reads a standard-JSON input document and lists the sources that ask for
/// blueprint treatment, before any compilation is attempted.  Fails exactly
/// when the JSON parser rejects the input.
pub fn plan_standard_json(input: &str) -> (r: Result<Vec<(String, String)>, ProxyError>)
    ensures
        match r {
            Ok(bps) => parse_of(input@) matches Some(j) && bps.deep_view()
                == spec_blueprint_sources(j),
            Err(e) => parse_of(input@) is None && e == ProxyError::MalformedJson,
        },
{
    match parse_json(input) {
        Some(j) => Ok(blueprint_sources(&j)),
        None => Err(ProxyError::MalformedJson),
    }
}

/// Patches the real compiler's standard-JSON output with the blueprint
/// bytecode obtained for each file, in order, and renders the result.  Fails
/// exactly when the JSON parser rejects the compiler's output.
pub fn patch_standard_output(output: &str, patches: &Vec<(String, String)>) -> (r: Result<
    String,
    ProxyError,
>)
    ensures
        match r {
            Ok(s) => parse_of(output@) matches Some(j) && s@ == render_of(
                apply_std_patches(j, patches.deep_view()),
            ),
            Err(e) => parse_of(output@) is None && e == ProxyError::MalformedJson,
        },
{
    let ghost pdv = patches.deep_view();
    proof {
        assert(pdv.len() == patches@.len());
        assert(forall|i: int|
            0 <= i < patches@.len() ==> pdv[i] == #[trigger] patches@[i].deep_view());
    }
    match parse_json(output) {
        Some(doc) => {
            let ghost j0 = jv(doc);
            let mut cur = doc;
            let mut i: usize = 0;
            proof {
                assert(pdv.skip(0) =~= pdv);
            }
            while i < patches.len()
                invariant
                    i <= patches.len(),
                    pdv == patches.deep_view(),
                    pdv.len() == patches@.len(),
                    forall|t: int|
                        0 <= t < patches@.len() ==> pdv[t] == #[trigger] patches@[t].deep_view(),
                    apply_std_patches(j0, pdv) == apply_std_patches(jv(cur), pdv.skip(i as int)),
                decreases patches.len() - i,
            {
                proof {
                    assert(pdv.skip(i as int)[0] == pdv[i as int]);
                    assert(pdv.skip(i as int).drop_first() =~= pdv.skip(i as int + 1));
                }
                cur = patch_standard(cur, patches[i].0.as_str(), patches[i].1.as_str());
                i += 1;
            }
            proof {
                assert(pdv.skip(patches@.len() as int) =~= Seq::<(Seq<char>, Seq<char>)>::empty());
            }
            Ok(render_json(cur))
        },
        None => Err(ProxyError::MalformedJson),
    }
}

/// Patches the real compiler's combined-JSON output with the blueprint
/// bytecode obtained for each marked source file, in order, and renders the
/// result.  Fails exactly when the JSON parser rejects the compiler's
/// output.
pub fn patch_combined_output(output: &str, patches: &Vec<(String, String)>) -> (r: Result<
    String,
    ProxyError,
>)
    ensures
        match r {
            Ok(s) => parse_of(output@) matches Some(j) && s@ == render_of(
                apply_combined_patches(j, patches.deep_view()),
            ),
            Err(e) => parse_of(output@) is None && e == ProxyError::MalformedJson,
        },
{
    let ghost pdv = patches.deep_view();
    proof {
        assert(pdv.len() == patches@.len());
        assert(forall|i: int|
            0 <= i < patches@.len() ==> pdv[i] == #[trigger] patches@[i].deep_view());
    }
    match parse_json(output) {
        Some(doc) => {
            let ghost j0 = jv(doc);
            let mut cur = doc;
            let mut i: usize = 0;
            proof {
                assert(pdv.skip(0) =~= pdv);
            }
            while i < patches.len()
                invariant
                    i <= patches.len(),
                    pdv == patches.deep_view(),
                    pdv.len() == patches@.len(),
                    forall|t: int|
                        0 <= t < patches@.len() ==> pdv[t] == #[trigger] patches@[t].deep_view(),
                    apply_combined_patches(j0, pdv) == apply_combined_patches(
                        jv(cur),
                        pdv.skip(i as int),
                    ),
                decreases patches.len() - i,
            {
                proof {
                    assert(pdv.skip(i as int)[0] == pdv[i as int]);
                    assert(pdv.skip(i as int).drop_first() =~= pdv.skip(i as int + 1));
                }
                cur = patch_combined(cur, patches[i].0.as_str(), patches[i].1.as_str());
                i += 1;
            }
            proof {
                assert(pdv.skip(patches@.len() as int) =~= Seq::<(Seq<char>, Seq<char>)>::empty());
            }
            Ok(render_json(cur))
        },
        None => Err(ProxyError::MalformedJson),
    }
}

} // verus!
