//! The resources that can be granted.

use vstd::prelude::*;
use crate::grants::{grants_view, ids_view, GrantKind, GrantView, ResourceGrant};
use crate::text::joined;

verus! {

/// A resource: the key that names its markers, the identifiers that the game knows it by, and
/// what its two grants are worth.
#[derive(Debug)]
pub struct ResourceConfig {
    pub key: &'static str,
    pub resource_ids: Vec<&'static str>,
    /// What the player starts every battle with.
    pub useful_amount: u32,
    /// What the player is given on the spot.
    pub filler_amount: u32,
}

/// What a [`ResourceConfig`] holds.
#[verifier::ext_equal]
pub struct ConfigView {
    pub key: Seq<char>,
    pub resource_ids: Seq<Seq<char>>,
    pub useful_amount: u32,
    pub filler_amount: u32,
}

impl View for ResourceConfig {
    type V = ConfigView;

    open spec fn view(&self) -> ConfigView {
        ConfigView {
            key: self.key@,
            resource_ids: ids_view(self.resource_ids@),
            useful_amount: self.useful_amount,
            filler_amount: self.filler_amount,
        }
    }
}

/// The resources that can be granted.
pub open spec fn configs() -> Seq<ConfigView> {
    seq![
        ConfigView {
            key: "money"@,
            resource_ids: seq!["Money"@],
            useful_amount: 50,
            filler_amount: 100,
        },
        ConfigView {
            key: "food"@,
            resource_ids: seq!["Food"@],
            useful_amount: 50,
            filler_amount: 100,
        },
        ConfigView {
            key: "wood"@,
            resource_ids: seq!["Wood"@],
            useful_amount: 50,
            filler_amount: 100,
        },
        ConfigView {
            key: "lore"@,
            resource_ids: seq!["Lore"@, "Faith"@],
            useful_amount: 40,
            filler_amount: 200,
        },
        ConfigView {
            key: "stone"@,
            resource_ids: seq!["Stone"@],
            useful_amount: 5,
            filler_amount: 10,
        },
        ConfigView {
            key: "iron"@,
            resource_ids: seq!["Iron"@],
            useful_amount: 5,
            filler_amount: 10,
        },
        ConfigView {
            key: "military_xp"@,
            resource_ids: seq!["MilitaryXP"@, "HuntTrophy"@],
            useful_amount: 25,
            filler_amount: 200,
        },
    ]
}

/// The contents of a list of resources.
pub open spec fn configs_view(list: Seq<ResourceConfig>) -> Seq<ConfigView> {
    Seq::new(list.len(), |i: int| list[i]@)
}

/// A resource with one identifier.
fn single(
    key: &'static str,
    id: &'static str,
    useful_amount: u32,
    filler_amount: u32,
) -> (config: ResourceConfig)
    ensures
        config@ == (ConfigView {
            key: key@,
            resource_ids: seq![id@],
            useful_amount,
            filler_amount,
        }),
{
    let resource_ids: Vec<&'static str> = vec![id];
    assert(ids_view(resource_ids@) =~= seq![id@]);
    ResourceConfig { key, resource_ids, useful_amount, filler_amount }
}

/// A resource with two identifiers.
fn double(
    key: &'static str,
    id: &'static str,
    other_id: &'static str,
    useful_amount: u32,
    filler_amount: u32,
) -> (config: ResourceConfig)
    ensures
        config@ == (ConfigView {
            key: key@,
            resource_ids: seq![id@, other_id@],
            useful_amount,
            filler_amount,
        }),
{
    let resource_ids: Vec<&'static str> = vec![id, other_id];
    assert(ids_view(resource_ids@) =~= seq![id@, other_id@]);
    ResourceConfig { key, resource_ids, useful_amount, filler_amount }
}

/// The resources that can be granted.
pub fn resource_configs() -> (list: Vec<ResourceConfig>)
    ensures
        configs_view(list@) == configs(),
{
    let list: Vec<ResourceConfig> = vec![
        single("money", "Money", 50, 100),
        single("food", "Food", 50, 100),
        single("wood", "Wood", 50, 100),
        double("lore", "Lore", "Faith", 40, 200),
        single("stone", "Stone", 5, 10),
        single("iron", "Iron", 5, 10),
        double("military_xp", "MilitaryXP", "HuntTrophy", 25, 200),
    ];
    assert(configs_view(list@) =~= configs());
    list
}

/// The path of a marker in the directory `dir`.
pub open spec fn marker_path(dir: Seq<char>, kind: GrantKind, key: Seq<char>) -> Seq<char> {
    dir + "\\"@ + match kind {
        GrantKind::Useful => "useful_"@,
        GrantKind::Filler => "filler_"@,
    } + key + ".flag"@
}

/// The grant of one kind of a resource, whose marker is in the directory `dir`.
pub open spec fn grant_of(config: ConfigView, kind: GrantKind, dir: Seq<char>) -> GrantView {
    GrantView {
        kind,
        key: config.key,
        marker_path: marker_path(dir, kind, config.key),
        resource_ids: config.resource_ids,
        amount: match kind {
            GrantKind::Useful => config.useful_amount,
            GrantKind::Filler => config.filler_amount,
        },
    }
}

/// The two grants of each resource of a list, one resource after the other.
pub open spec fn grants_of(list: Seq<ConfigView>, dir: Seq<char>) -> Seq<GrantView> {
    Seq::new(
        2 * list.len(),
        |i: int|
            grant_of(
                list[i / 2],
                if i % 2 == 0 {
                    GrantKind::Useful
                } else {
                    GrantKind::Filler
                },
                dir,
            ),
    )
}

/// Makes the grant of one kind of a resource.
fn make_grant(config: &ResourceConfig, kind: GrantKind, dir: &str) -> (grant: ResourceGrant)
    ensures
        grant@ == grant_of(config@, kind, dir@),
{
    let stem = match kind {
        GrantKind::Useful => "useful_",
        GrantKind::Filler => "filler_",
    };
    let prefix = joined(joined(dir, "\\").as_str(), stem);
    let path = joined(joined(prefix.as_str(), config.key).as_str(), ".flag");
    let mut resource_ids: Vec<&'static str> = Vec::new();
    for i in 0..config.resource_ids.len()
        invariant
            resource_ids@ == config.resource_ids@.take(i as int),
    {
        resource_ids.push(config.resource_ids[i]);
        assert(config.resource_ids@.take(i + 1) =~= config.resource_ids@.take(i as int).push(
            config.resource_ids@[i as int],
        ));
    }
    assert(config.resource_ids@.take(config.resource_ids@.len() as int)
        =~= config.resource_ids@);
    let amount = match kind {
        GrantKind::Useful => config.useful_amount,
        GrantKind::Filler => config.filler_amount,
    };
    ResourceGrant { kind, key: config.key, marker_path: path, resource_ids, amount }
}

/// The two grants of each resource, whose markers are in the directory `dir`. There is one
/// marker for each grant, however often the grant is received.
pub fn resource_grants(list: &Vec<ResourceConfig>, dir: &str) -> (grants: Vec<ResourceGrant>)
    ensures
        grants_view(grants@) == grants_of(configs_view(list@), dir@),
{
    let ghost all = grants_of(configs_view(list@), dir@);
    let mut grants: Vec<ResourceGrant> = Vec::new();
    assert(grants_view(grants@) =~= all.take(0));
    for i in 0..list.len()
        invariant
            all == grants_of(configs_view(list@), dir@),
            grants_view(grants@) == all.take(2 * i),
    {
        let ghost before = grants_view(grants@);
        grants.push(make_grant(&list[i], GrantKind::Useful, dir));
        assert(grants_view(grants@) =~= before.push(grants@.last()@));
        assert(all.take(2 * i + 1) =~= all.take(2 * i).push(all[2 * i]));
        let ghost half = grants_view(grants@);
        grants.push(make_grant(&list[i], GrantKind::Filler, dir));
        assert(grants_view(grants@) =~= half.push(grants@.last()@));
        assert(all.take(2 * i + 2) =~= all.take(2 * i + 1).push(all[2 * i + 1]));
    }
    assert(all.take(all.len() as int) =~= all);
    grants
}

/// No two resources have the same key.
pub proof fn law_keys_differ(i: int, j: int)
    requires
        0 <= i < configs().len(),
        0 <= j < configs().len(),
        configs()[i].key == configs()[j].key,
    ensures
        i == j,
{
    reveal_strlit("money");
    reveal_strlit("food");
    reveal_strlit("wood");
    reveal_strlit("lore");
    reveal_strlit("stone");
    reveal_strlit("iron");
    reveal_strlit("military_xp");
    let a = configs()[i].key;
    let b = configs()[j].key;
    assert(a.len() == b.len() && a[0] == b[0]);
}

/// No two grants have the same marker.
pub proof fn law_markers_differ(dir: Seq<char>, i: int, j: int)
    requires
        0 <= i < grants_of(configs(), dir).len(),
        0 <= j < grants_of(configs(), dir).len(),
        grants_of(configs(), dir)[i].marker_path == grants_of(configs(), dir)[j].marker_path,
    ensures
        i == j,
{
    reveal_strlit("\\");
    reveal_strlit("useful_");
    reveal_strlit("filler_");
    reveal_strlit(".flag");
    let a = grants_of(configs(), dir)[i];
    let b = grants_of(configs(), dir)[j];
    let n = dir.len() as int + 1;
    let path = a.marker_path;
    assert(path[n] == if a.kind is Useful {
        'u'
    } else {
        'f'
    });
    assert(path[n] == if b.kind is Useful {
        'u'
    } else {
        'f'
    });
    assert(a.key =~= path.subrange(n + 7, path.len() - 5));
    assert(b.key =~= path.subrange(n + 7, path.len() - 5));
    law_keys_differ(i / 2, j / 2);
}

} // verus!
