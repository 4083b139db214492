//! The laws the patching operations obey, stated over the model tree and
//! proved from the definitions in `json` and `proxy`.

use vstd::prelude::*;
use crate::json::{
    JsonV, has_key, get_key, set_key, lemma_set_key_same, lemma_set_key_other,
};
use crate::proxy::{
    std_path_ok, spec_patch_std, combined_key_hits, spec_patch_combined_entry,
    spec_patch_combined_one, spec_blueprint_sources, sources_entries, selected, selected_list,
    apply_std_patches, apply_combined_patches,
};

verus! {

/// The bytecode object string at `contracts.<fname>.<first contract>.evm.
/// bytecode.object`, when the whole path exists.
pub open spec fn std_object_of(j: JsonV, fname: Seq<char>) -> Option<JsonV> {
    if std_path_ok(j, fname) {
        let top = j->Obj_0;
        let cs = get_key(top, "contracts"@)->Obj_0;
        let fc = get_key(cs, fname)->Obj_0;
        let con = fc[0].1->Obj_0;
        let evm = get_key(con, "evm"@)->Obj_0;
        let bc = get_key(evm, "bytecode"@)->Obj_0;
        if has_key(bc, "object"@) {
            Some(get_key(bc, "object"@))
        } else {
            None
        }
    } else {
        None
    }
}

/// Law: after the standard-JSON patch for a file whose patched location
/// exists, the document's bytecode object for that file is exactly the
/// blueprint bytecode handed to the patch.
pub proof fn lemma_std_patch_sets_object(j: JsonV, fname: Seq<char>, code: Seq<char>)
    requires
        std_path_ok(j, fname),
    ensures
        std_object_of(spec_patch_std(j, fname, code), fname) == Some(JsonV::Str(code)),
{
    let top = j->Obj_0;
    let cs = get_key(top, "contracts"@)->Obj_0;
    let fc = get_key(cs, fname)->Obj_0;
    let con = fc[0].1->Obj_0;
    let evm = get_key(con, "evm"@)->Obj_0;
    let bc = get_key(evm, "bytecode"@)->Obj_0;
    let bc2 = set_key(bc, "object"@, JsonV::Str(code));
    let evm2 = set_key(evm, "bytecode"@, JsonV::Obj(bc2));
    let con2 = set_key(con, "evm"@, JsonV::Obj(evm2));
    let fc2 = fc.update(0, (fc[0].0, JsonV::Obj(con2)));
    let cs2 = set_key(cs, fname, JsonV::Obj(fc2));
    let top2 = set_key(top, "contracts"@, JsonV::Obj(cs2));
    lemma_set_key_same(top, "contracts"@, JsonV::Obj(cs2));
    lemma_set_key_same(cs, fname, JsonV::Obj(fc2));
    lemma_set_key_same(con, "evm"@, JsonV::Obj(evm2));
    lemma_set_key_same(evm, "bytecode"@, JsonV::Obj(bc2));
    lemma_set_key_same(bc, "object"@, JsonV::Str(code));
    assert(std_path_ok(spec_patch_std(j, fname, code), fname));
}

/// Everything the standard-JSON patch leaves alone, level by level: other
/// top-level fields, other files' contract maps, the later contracts of the
/// patched file and the first one's name, and the siblings of `evm`,
/// `bytecode` and `object` along the patched path.
pub open spec fn std_patch_frame_holds(j: JsonV, r: JsonV, fname: Seq<char>) -> bool {
    let top = j->Obj_0;
    let top2 = r->Obj_0;
    let cs = get_key(top, "contracts"@)->Obj_0;
    let cs2 = get_key(top2, "contracts"@)->Obj_0;
    let fc = get_key(cs, fname)->Obj_0;
    let fc2 = get_key(cs2, fname)->Obj_0;
    let con = fc[0].1->Obj_0;
    let con2 = fc2[0].1->Obj_0;
    let evm = get_key(con, "evm"@)->Obj_0;
    let evm2 = get_key(con2, "evm"@)->Obj_0;
    let bc = get_key(evm, "bytecode"@)->Obj_0;
    let bc2 = get_key(evm2, "bytecode"@)->Obj_0;
    &&& std_path_ok(r, fname)
    &&& forall|k: Seq<char>|
        k != "contracts"@ ==> #[trigger] has_key(top2, k) == has_key(top, k) && (has_key(top, k)
            ==> get_key(top2, k) == get_key(top, k))
    &&& forall|k: Seq<char>|
        k != fname ==> #[trigger] has_key(cs2, k) == has_key(cs, k) && (has_key(cs, k)
            ==> get_key(cs2, k) == get_key(cs, k))
    &&& fc2.len() == fc.len()
    &&& fc2[0].0 == fc[0].0
    &&& forall|t: int| 1 <= t < fc.len() ==> fc2[t] == fc[t]
    &&& forall|k: Seq<char>|
        k != "evm"@ ==> #[trigger] has_key(con2, k) == has_key(con, k) && (has_key(con, k)
            ==> get_key(con2, k) == get_key(con, k))
    &&& forall|k: Seq<char>|
        k != "bytecode"@ ==> #[trigger] has_key(evm2, k) == has_key(evm, k) && (has_key(evm, k)
            ==> get_key(evm2, k) == get_key(evm, k))
    &&& forall|k: Seq<char>|
        k != "object"@ ==> #[trigger] has_key(bc2, k) == has_key(bc, k) && (has_key(bc, k)
            ==> get_key(bc2, k) == get_key(bc, k))
}

/// Law: the standard-JSON patch changes nothing but the one bytecode leaf it
/// is about — the invariant of the patched output.
pub proof fn lemma_std_patch_frame(j: JsonV, fname: Seq<char>, code: Seq<char>)
    requires
        std_path_ok(j, fname),
    ensures
        std_patch_frame_holds(j, spec_patch_std(j, fname, code), fname),
{
    let r = spec_patch_std(j, fname, code);
    let top = j->Obj_0;
    let cs = get_key(top, "contracts"@)->Obj_0;
    let fc = get_key(cs, fname)->Obj_0;
    let con = fc[0].1->Obj_0;
    let evm = get_key(con, "evm"@)->Obj_0;
    let bc = get_key(evm, "bytecode"@)->Obj_0;
    let bc2 = set_key(bc, "object"@, JsonV::Str(code));
    let evm2 = set_key(evm, "bytecode"@, JsonV::Obj(bc2));
    let con2 = set_key(con, "evm"@, JsonV::Obj(evm2));
    let fc2 = fc.update(0, (fc[0].0, JsonV::Obj(con2)));
    let cs2 = set_key(cs, fname, JsonV::Obj(fc2));
    let top2 = set_key(top, "contracts"@, JsonV::Obj(cs2));
    lemma_set_key_same(top, "contracts"@, JsonV::Obj(cs2));
    lemma_set_key_same(cs, fname, JsonV::Obj(fc2));
    lemma_set_key_same(con, "evm"@, JsonV::Obj(evm2));
    lemma_set_key_same(evm, "bytecode"@, JsonV::Obj(bc2));
    lemma_set_key_same(bc, "object"@, JsonV::Str(code));
    assert(std_path_ok(r, fname));
    assert forall|k: Seq<char>|
        k != "contracts"@ implies #[trigger] has_key(top2, k) == has_key(top, k) && (has_key(
        top,
        k,
    ) ==> get_key(top2, k) == get_key(top, k)) by {
        lemma_set_key_other(top, "contracts"@, JsonV::Obj(cs2), k);
    }
    assert forall|k: Seq<char>|
        k != fname implies #[trigger] has_key(cs2, k) == has_key(cs, k) && (has_key(cs, k)
        ==> get_key(cs2, k) == get_key(cs, k)) by {
        lemma_set_key_other(cs, fname, JsonV::Obj(fc2), k);
    }
    assert forall|k: Seq<char>|
        k != "evm"@ implies #[trigger] has_key(con2, k) == has_key(con, k) && (has_key(con, k)
        ==> get_key(con2, k) == get_key(con, k)) by {
        lemma_set_key_other(con, "evm"@, JsonV::Obj(evm2), k);
    }
    assert forall|k: Seq<char>|
        k != "bytecode"@ implies #[trigger] has_key(evm2, k) == has_key(evm, k) && (has_key(
        evm,
        k,
    ) ==> get_key(evm2, k) == get_key(evm, k)) by {
        lemma_set_key_other(evm, "bytecode"@, JsonV::Obj(bc2), k);
    }
    assert forall|k: Seq<char>|
        k != "object"@ implies #[trigger] has_key(bc2, k) == has_key(bc, k) && (has_key(bc, k)
        ==> get_key(bc2, k) == get_key(bc, k)) by {
        lemma_set_key_other(bc, "object"@, JsonV::Str(code), k);
    }
}

/// Law: the combined-JSON patch at a hit key sets the entry's `bytecode`
/// field to the blueprint bytecode and leaves every other field of the entry
/// and every other entry of the output object as they were.
pub proof fn lemma_combined_patch(j: JsonV, k: Seq<char>, code: Seq<char>)
    requires
        combined_key_hits(j, k),
    ensures
        combined_key_hits(spec_patch_combined_entry(j, k, code), k),
        get_key(
            get_key(spec_patch_combined_entry(j, k, code)->Obj_0, k)->Obj_0,
            "bytecode"@,
        ) == JsonV::Str(code),
        has_key(get_key(spec_patch_combined_entry(j, k, code)->Obj_0, k)->Obj_0, "bytecode"@),
        forall|k2: Seq<char>|
            k2 != k ==> #[trigger] has_key(spec_patch_combined_entry(j, k, code)->Obj_0, k2)
                == has_key(j->Obj_0, k2) && (has_key(j->Obj_0, k2) ==> get_key(
                spec_patch_combined_entry(j, k, code)->Obj_0,
                k2,
            ) == get_key(j->Obj_0, k2)),
        forall|k2: Seq<char>|
            k2 != "bytecode"@ ==> #[trigger] has_key(
                get_key(spec_patch_combined_entry(j, k, code)->Obj_0, k)->Obj_0,
                k2,
            ) == has_key(get_key(j->Obj_0, k)->Obj_0, k2) && (has_key(
                get_key(j->Obj_0, k)->Obj_0,
                k2,
            ) ==> get_key(get_key(spec_patch_combined_entry(j, k, code)->Obj_0, k)->Obj_0, k2)
                == get_key(get_key(j->Obj_0, k)->Obj_0, k2)),
{
    let top = j->Obj_0;
    let inner = get_key(top, k)->Obj_0;
    let inner2 = set_key(inner, "bytecode"@, JsonV::Str(code));
    let top2 = set_key(top, k, JsonV::Obj(inner2));
    lemma_set_key_same(top, k, JsonV::Obj(inner2));
    lemma_set_key_same(inner, "bytecode"@, JsonV::Str(code));
    assert forall|k2: Seq<char>|
        k2 != k implies #[trigger] has_key(top2, k2) == has_key(top, k2) && (has_key(top, k2)
        ==> get_key(top2, k2) == get_key(top, k2)) by {
        lemma_set_key_other(top, k, JsonV::Obj(inner2), k2);
    }
    assert forall|k2: Seq<char>|
        k2 != "bytecode"@ implies #[trigger] has_key(inner2, k2) == has_key(inner, k2) && (
    has_key(inner, k2) ==> get_key(inner2, k2) == get_key(inner, k2)) by {
        lemma_set_key_other(inner, "bytecode"@, JsonV::Str(code), k2);
    }
}

/// Law: when no candidate key hits, the combined-JSON patch for a file
/// leaves the output unchanged.
pub proof fn lemma_combined_no_hit(j: JsonV, keys: Seq<Seq<char>>, code: Seq<char>)
    requires
        forall|t: int| 0 <= t < keys.len() ==> !combined_key_hits(j, #[trigger] keys[t]),
    ensures
        spec_patch_combined_one(j, keys, code) == j,
    decreases keys.len(),
{
    if keys.len() > 0 {
        assert forall|t: int|
            0 <= t < keys.drop_first().len() implies !combined_key_hits(
            j,
            #[trigger] keys.drop_first()[t],
        ) by {
            assert(keys.drop_first()[t] == keys[t + 1]);
        }
        lemma_combined_no_hit(j, keys.drop_first(), code);
    }
}

/// Law: an input none of whose sources carries the marker plans no
/// blueprint work at all.
pub proof fn lemma_unmarked_input_plans_nothing(j: JsonV)
    requires
        forall|t: int|
            0 <= t < sources_entries(j).len() ==> !selected(#[trigger] sources_entries(j)[t]),
    ensures
        spec_blueprint_sources(j) == Seq::<(Seq<char>, Seq<char>)>::empty(),
{
    lemma_selected_list_empty(sources_entries(j));
}

proof fn lemma_selected_list_empty(srcs: Seq<(Seq<char>, JsonV)>)
    requires
        forall|t: int| 0 <= t < srcs.len() ==> !selected(#[trigger] srcs[t]),
    ensures
        selected_list(srcs) == Seq::<(Seq<char>, Seq<char>)>::empty(),
    decreases srcs.len(),
{
    if srcs.len() > 0 {
        assert forall|t: int|
            0 <= t < srcs.drop_last().len() implies !selected(#[trigger] srcs.drop_last()[t]) by {
            assert(srcs.drop_last()[t] == srcs[t]);
        }
        lemma_selected_list_empty(srcs.drop_last());
    }
}

/// Law: with nothing to patch, both patch pipelines leave the parsed
/// document exactly as the real compiler produced it.
pub proof fn lemma_no_patches_no_change(j: JsonV)
    ensures
        apply_std_patches(j, Seq::<(Seq<char>, Seq<char>)>::empty()) == j,
        apply_combined_patches(j, Seq::<(Seq<char>, Seq<char>)>::empty()) == j,
{
}

/// Law: patching a single file is one step of the standard-JSON pipeline.
pub proof fn lemma_single_std_patch(j: JsonV, fname: Seq<char>, code: Seq<char>)
    ensures
        apply_std_patches(j, seq![(fname, code)]) == spec_patch_std(j, fname, code),
{
    let ps = seq![(fname, code)];
    assert(ps.drop_first() =~= Seq::<(Seq<char>, Seq<char>)>::empty());
    assert(ps[0] == (fname, code));
    lemma_no_patches_no_change(spec_patch_std(j, fname, code));
    assert(apply_std_patches(j, ps) == apply_std_patches(
        spec_patch_std(j, ps[0].0, ps[0].1),
        ps.drop_first(),
    ));
}

/// Law: patching a single file is one step of the combined-JSON pipeline,
/// trying its base name first and its `contracts/...` suffix second.
pub proof fn lemma_single_combined_patch(j: JsonV, path: Seq<char>, code: Seq<char>)
    ensures
        apply_combined_patches(j, seq![(path, code)]) == spec_patch_combined_one(
            j,
            seq![
                crate::paths::base_key_of(path),
                crate::paths::contracts_key_of(path),
            ],
            code,
        ),
{
    let ps = seq![(path, code)];
    let keys = seq![crate::paths::base_key_of(path), crate::paths::contracts_key_of(path)];
    assert(ps.drop_first() =~= Seq::<(Seq<char>, Seq<char>)>::empty());
    assert(ps[0] == (path, code));
    lemma_no_patches_no_change(spec_patch_combined_one(j, keys, code));
    assert(apply_combined_patches(j, ps) == apply_combined_patches(
        spec_patch_combined_one(j, keys, code),
        ps.drop_first(),
    ));
}

} // verus!
