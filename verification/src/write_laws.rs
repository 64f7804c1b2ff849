//! That the patches put nothing into a program that the format cannot hold.

use vstd::prelude::*;
use hlbc::types::{RefType, Reg};
use crate::grants::{in_order, of_kind, sentinel_name, GrantKind, GrantView};
use crate::image::{clean, loaded_first, no_zeros};
use crate::module::ModuleView;
use crate::resources::{configs, grants_of, marker_path};
use crate::sites::Method;

verus! {

/// The text holds no zero character.
pub open spec fn clean_text(text: Seq<char>) -> bool {
    !text.contains('\0')
}

/// Texts without zero characters, one after the other.
proof fn lemma_clean_joined(a: Seq<char>, b: Seq<char>)
    requires
        clean_text(a),
        clean_text(b),
    ensures
        clean_text(a + b),
{
    if (a + b).contains('\0') {
        let i = choose|i: int| 0 <= i < (a + b).len() && (a + b)[i] == '\0';
        if i < a.len() {
            assert(a[i] == '\0');
        } else {
            assert(b[i - a.len()] == '\0');
        }
    }
}

/// One more text without zero characters.
proof fn lemma_string_added(code: ModuleView, text: Seq<char>)
    requires
        clean(code),
        clean_text(text),
    ensures
        clean(code.with_string(text)),
{
}

/// The texts of a grant hold no zero characters.
pub open spec fn clean_grant(grant: GrantView) -> bool {
    clean_text(grant.key) && clean_text(grant.marker_path) && no_zeros(grant.resource_ids)
}

/// The texts of several grants hold no zero characters.
pub open spec fn clean_grants(grants: Seq<GrantView>) -> bool {
    forall|i: int| 0 <= i < grants.len() ==> clean_grant(#[trigger] grants[i])
}

/// The grants of a kind are clean where all are.
proof fn lemma_kind_clean(grants: Seq<GrantView>, kind: GrantKind)
    requires
        clean_grants(grants),
    ensures
        clean_grants(of_kind(grants, kind)),
    decreases grants.len(),
{
    reveal(Seq::filter);
    if grants.len() > 0 {
        let fewer = grants.drop_last();
        assert(clean_grants(fewer)) by {
            assert forall|i: int| 0 <= i < fewer.len() implies clean_grant(#[trigger] fewer[i]) by {
                assert(fewer[i] == grants[i]);
            }
        }
        lemma_kind_clean(fewer, kind);
        assert(clean_grant(grants[grants.len() - 1]));
    }
}

/// The fields of grants can be written.
proof fn lemma_sentinels_clean(code: ModuleView, grants: Seq<GrantView>, bool_ty: RefType)
    requires
        clean(code),
        clean_grants(grants),
    ensures
        clean(code.add_sentinels(grants, bool_ty).0),
    decreases grants.len(),
{
    if grants.len() > 0 {
        let fewer = grants.drop_last();
        assert(clean_grants(fewer)) by {
            assert forall|i: int| 0 <= i < fewer.len() implies clean_grant(#[trigger] fewer[i]) by {
                assert(fewer[i] == grants[i]);
            }
        }
        lemma_sentinels_clean(code, fewer, bool_ty);
        assert(clean_grant(grants[grants.len() - 1]));
        reveal_strlit("apUsefulApplied_");
        lemma_clean_joined("apUsefulApplied_"@, grants.last().key);
        let before = code.add_sentinels(fewer, bool_ty).0;
        lemma_string_added(before, sentinel_name(grants.last().key));
    }
}

/// The constants of grants can be written.
proof fn lemma_constants_clean(code: ModuleView, grants: Seq<GrantView>)
    requires
        clean(code),
        clean_grants(grants),
    ensures
        clean(code.with_grants(grants)),
    decreases grants.len(),
{
    if grants.len() > 0 {
        let fewer = grants.drop_last();
        let grant = grants.last();
        assert(clean_grants(fewer)) by {
            assert forall|i: int| 0 <= i < fewer.len() implies clean_grant(#[trigger] fewer[i]) by {
                assert(fewer[i] == grants[i]);
            }
        }
        lemma_constants_clean(code, fewer);
        assert(clean_grant(grants[grants.len() - 1]));
        let before = code.with_grants(fewer);
        lemma_string_added(before, grant.marker_path);
        let after = before.with_grant(grant);
        assert forall|i: int| 0 <= i < after.strings.len() implies !(
        #[trigger] after.strings[i]).contains('\0') by {
            let k = before.strings.len() as int;
            if i < k {
                assert(after.strings[i] == before.strings[i]);
            } else if i > k {
                assert(after.strings[i] == grant.resource_ids[i - k - 1]);
            }
        }
        assert(loaded_first(after.floats)) by {
            assert forall|i: int, j: int|
                0 <= i < j < after.floats.len() && (#[trigger] after.floats[j]) is Loaded implies (
            #[trigger] after.floats[i]) is Loaded by {
                assert(j < before.floats.len());
                assert(before.floats[j] == after.floats[j] && before.floats[i] == after.floats[i]);
            }
        }
    }
}

/// The resources that can be granted hold no zero characters.
proof fn lemma_configs_clean()
    ensures
        forall|i: int|
            0 <= i < configs().len() ==> clean_text((#[trigger] configs()[i]).key) && no_zeros(
                configs()[i].resource_ids,
            ),
{
    reveal_strlit("money");
    reveal_strlit("Money");
    reveal_strlit("food");
    reveal_strlit("Food");
    reveal_strlit("wood");
    reveal_strlit("Wood");
    reveal_strlit("lore");
    reveal_strlit("Lore");
    reveal_strlit("Faith");
    reveal_strlit("stone");
    reveal_strlit("Stone");
    reveal_strlit("iron");
    reveal_strlit("Iron");
    reveal_strlit("military_xp");
    reveal_strlit("MilitaryXP");
    reveal_strlit("HuntTrophy");
    assert(clean_text("money"@) && clean_text("Money"@) && clean_text("food"@) && clean_text("Food"@));
    assert(clean_text("wood"@) && clean_text("Wood"@) && clean_text("lore"@) && clean_text("Lore"@));
    assert(clean_text("Faith"@) && clean_text("stone"@) && clean_text("Stone"@) && clean_text("iron"@));
    assert(clean_text("Iron"@) && clean_text("military_xp"@) && clean_text("MilitaryXP"@));
    assert(clean_text("HuntTrophy"@));
}

/// The grants of a directory without zero characters in its name hold none.
proof fn lemma_grants_clean(dir: Seq<char>)
    requires
        clean_text(dir),
    ensures
        clean_grants(grants_of(configs(), dir)),
{
    let grants = grants_of(configs(), dir);
    lemma_configs_clean();
    reveal_strlit("\\");
    reveal_strlit("useful_");
    reveal_strlit("filler_");
    reveal_strlit(".flag");
    assert forall|i: int| 0 <= i < grants.len() implies clean_grant(#[trigger] grants[i]) by {
        let config = configs()[i / 2];
        let kind = grants[i].kind;
        assert(clean_text(config.key) && no_zeros(config.resource_ids));
        let stem = match kind {
            GrantKind::Useful => "useful_"@,
            GrantKind::Filler => "filler_"@,
        };
        lemma_clean_joined(dir, "\\"@);
        lemma_clean_joined(dir + "\\"@, stem);
        lemma_clean_joined(dir + "\\"@ + stem, config.key);
        lemma_clean_joined(dir + "\\"@ + stem + config.key, ".flag"@);
        assert(grants[i].marker_path == marker_path(dir, kind, config.key));
    }
}

/// The patch of the grants leaves a program that can be written.
proof fn lemma_patch_grants_clean(code: ModuleView, grants: Seq<GrantView>)
    requires
        clean(code),
        clean_grants(grants),
    ensures
        clean(code.patch_grants(grants).0),
{
    if let Ok(site) = code.grant_site() {
        let useful = of_kind(grants, GrantKind::Useful);
        lemma_kind_clean(grants, GrantKind::Useful);
        lemma_kind_clean(grants, GrantKind::Filler);
        lemma_sentinels_clean(code, useful, site.bool_ty);
        let with_fields = code.add_sentinels(useful, site.bool_ty).0;
        assert(clean_grants(in_order(grants)));
        lemma_constants_clean(with_fields, in_order(grants));
    }
}

/// The patch of the check leaves a program that can be written.
proof fn lemma_gate_clean(code: ModuleView, gate: usize, prefix: Seq<char>, flag: Seq<char>)
    requires
        clean(code),
        clean_text(prefix),
        clean_text(flag),
    ensures
        clean(code.patch_gate(gate, prefix, flag).0),
{
    lemma_string_added(code, prefix);
    lemma_string_added(code.with_string(prefix), flag);
}

/// The other patches of the map leave a program that can be written.
proof fn lemma_map_clean(code: ModuleView, gate: usize, unlocked: usize, args: Vec<Reg>)
    requires
        clean(code),
    ensures
        clean(code.patch_refresh(gate).0),
        clean(code.patch_reveal(gate, unlocked).0),
        clean(code.patch_path().0),
        clean(code.patch_callback(args).0),
{
}

/// The patches put no zero character into a program, where no directory has one in its name, and
/// they leave the floats in their order.
pub proof fn law_patched_program_is_clean(
    code: ModuleView,
    unlock_dir: Seq<char>,
    flag: Seq<char>,
    pending_dir: Seq<char>,
    args: Vec<Reg>,
)
    requires
        clean(code),
        clean_text(unlock_dir),
        clean_text(flag),
        clean_text(pending_dir),
    ensures
        clean(code.patch_all(unlock_dir, flag, pending_dir, args).0),
{
    reveal(ModuleView::patch_map);
    reveal(ModuleView::patch_all);
    reveal_strlit("\\");
    let prefix = unlock_dir + "\\"@;
    assert(clean_text("\\"@));
    lemma_clean_joined(unlock_dir, "\\"@);
    lemma_grants_clean(pending_dir);
    if let Ok(gate) = code.method(Method::GetBattleState) {
        let (m1, r1) = code.patch_gate(gate, prefix, flag);
        let unlocked = r1->Ok_0;
        let m2 = m1.patch_refresh(gate).0;
        let m3 = m2.patch_reveal(gate, unlocked).0;
        let m4 = m3.patch_path().0;
        let m5 = m4.patch_callback(args).0;
        lemma_gate_clean(code, gate, prefix, flag);
        lemma_map_clean(m1, gate, unlocked, args);
        lemma_map_clean(m2, gate, unlocked, args);
        lemma_map_clean(m3, gate, unlocked, args);
        lemma_map_clean(m4, gate, unlocked, args);
        lemma_patch_grants_clean(m5, grants_of(configs(), pending_dir));
    }
}

} // verus!
