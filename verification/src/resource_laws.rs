//! What each marker is worth.

use vstd::prelude::*;
use hlbc::types::RefField;
use crate::find_laws::same_letter;
use crate::grant_behaviour::{
    added_one, is_applied, marker_asked, marker_exists, resources, slot_run, tick_run,
};
use crate::grants::{sentinel_of, GrantKind, GrantSite, GrantView, Sentinels};
use crate::machine::{Event, Game, Value};
use crate::module::Float;
use crate::resources::{configs, grants_of, law_markers_differ};

verus! {

/// A resource of the game that can be granted.
pub enum Resource {
    Money,
    Food,
    Wood,
    Lore,
    Stone,
    Iron,
    MilitaryXp,
}

/// The name of the marker of a grant, in the directory of such markers.
pub open spec fn marker_name(resource: Resource, kind: GrantKind) -> Seq<char> {
    match (resource, kind) {
        (Resource::Money, GrantKind::Useful) => "\\useful_money.flag"@,
        (Resource::Money, GrantKind::Filler) => "\\filler_money.flag"@,
        (Resource::Food, GrantKind::Useful) => "\\useful_food.flag"@,
        (Resource::Food, GrantKind::Filler) => "\\filler_food.flag"@,
        (Resource::Wood, GrantKind::Useful) => "\\useful_wood.flag"@,
        (Resource::Wood, GrantKind::Filler) => "\\filler_wood.flag"@,
        (Resource::Lore, GrantKind::Useful) => "\\useful_lore.flag"@,
        (Resource::Lore, GrantKind::Filler) => "\\filler_lore.flag"@,
        (Resource::Stone, GrantKind::Useful) => "\\useful_stone.flag"@,
        (Resource::Stone, GrantKind::Filler) => "\\filler_stone.flag"@,
        (Resource::Iron, GrantKind::Useful) => "\\useful_iron.flag"@,
        (Resource::Iron, GrantKind::Filler) => "\\filler_iron.flag"@,
        (Resource::MilitaryXp, GrantKind::Useful) => "\\useful_military_xp.flag"@,
        (Resource::MilitaryXp, GrantKind::Filler) => "\\filler_military_xp.flag"@,
    }
}

/// The game knows the resource by this identifier. Some clans have a name of their own for lore, and
/// one has for the experience of warriors.
pub open spec fn is_known_as(resource: Resource, id: Seq<char>) -> bool {
    match resource {
        Resource::Money => id == "Money"@,
        Resource::Food => id == "Food"@,
        Resource::Wood => id == "Wood"@,
        Resource::Lore => id == "Lore"@ || id == "Faith"@,
        Resource::Stone => id == "Stone"@,
        Resource::Iron => id == "Iron"@,
        Resource::MilitaryXp => id == "MilitaryXP"@ || id == "HuntTrophy"@,
    }
}

/// How much of a resource a grant is worth.
pub open spec fn worth(resource: Resource, kind: GrantKind) -> u32 {
    match (kind, resource) {
        (GrantKind::Useful, Resource::Money | Resource::Food | Resource::Wood) => 50,
        (GrantKind::Useful, Resource::Lore) => 40,
        (GrantKind::Useful, Resource::MilitaryXp) => 25,
        (GrantKind::Useful, Resource::Stone | Resource::Iron) => 5,
        (GrantKind::Filler, Resource::Money | Resource::Food | Resource::Wood) => 100,
        (GrantKind::Filler, Resource::Lore | Resource::MilitaryXp) => 200,
        (GrantKind::Filler, Resource::Stone | Resource::Iron) => 10,
    }
}

/// The grant gives that resource, by each identifier that the game knows it by, once, and no other
/// resource.
pub open spec fn gives(grant: GrantView, resource: Resource, kind: GrantKind) -> bool {
    &&& grant.kind == kind
    &&& grant.amount == worth(resource, kind)
    &&& forall|id: Seq<char>| #[trigger]
        grant.resource_ids.contains(id) <==> is_known_as(resource, id)
    &&& forall|j: int, k: int|
        0 <= j < k < grant.resource_ids.len() ==> #[trigger] grant.resource_ids[j]
            != #[trigger] grant.resource_ids[k]
}

/// The place of a resource in the list of them.
spec fn place(resource: Resource) -> int {
    match resource {
        Resource::Money => 0,
        Resource::Food => 1,
        Resource::Wood => 2,
        Resource::Lore => 3,
        Resource::Stone => 4,
        Resource::Iron => 5,
        Resource::MilitaryXp => 6,
    }
}

/// The place of a grant in the list of them.
spec fn grant_place(resource: Resource, kind: GrantKind) -> int {
    2 * place(resource) + if kind is Useful {
        0int
    } else {
        1
    }
}

/// The name of a marker is made of that of its kind and that of its resource.
proof fn lemma_marker_name(resource: Resource, kind: GrantKind)
    ensures
        marker_name(resource, kind) == "\\"@ + match kind {
            GrantKind::Useful => "useful_"@,
            GrantKind::Filler => "filler_"@,
        } + configs()[place(resource)].key + ".flag"@,
{
    reveal_strlit("\\");
    reveal_strlit("useful_");
    reveal_strlit("filler_");
    reveal_strlit(".flag");
    let key = configs()[place(resource)].key;
    let made = "\\"@ + match kind {
        GrantKind::Useful => "useful_"@,
        GrantKind::Filler => "filler_"@,
    } + key + ".flag"@;
    match resource {
        Resource::Money => {
            reveal_strlit("money");
            reveal_strlit("\\useful_money.flag");
            reveal_strlit("\\filler_money.flag");
            assert(made =~= marker_name(resource, kind));
        },
        Resource::Food => {
            reveal_strlit("food");
            reveal_strlit("\\useful_food.flag");
            reveal_strlit("\\filler_food.flag");
            assert(made =~= marker_name(resource, kind));
        },
        Resource::Wood => {
            reveal_strlit("wood");
            reveal_strlit("\\useful_wood.flag");
            reveal_strlit("\\filler_wood.flag");
            assert(made =~= marker_name(resource, kind));
        },
        Resource::Lore => {
            reveal_strlit("lore");
            reveal_strlit("\\useful_lore.flag");
            reveal_strlit("\\filler_lore.flag");
            assert(made =~= marker_name(resource, kind));
        },
        Resource::Stone => {
            reveal_strlit("stone");
            reveal_strlit("\\useful_stone.flag");
            reveal_strlit("\\filler_stone.flag");
            assert(made =~= marker_name(resource, kind));
        },
        Resource::Iron => {
            reveal_strlit("iron");
            reveal_strlit("\\useful_iron.flag");
            reveal_strlit("\\filler_iron.flag");
            assert(made =~= marker_name(resource, kind));
        },
        Resource::MilitaryXp => {
            reveal_strlit("military_xp");
            reveal_strlit("\\useful_military_xp.flag");
            reveal_strlit("\\filler_military_xp.flag");
            assert(made =~= marker_name(resource, kind));
        },
    }
}

/// A resource is granted by all its identifiers.
proof fn lemma_identifiers(resource: Resource)
    ensures
        ({
            let ids = configs()[place(resource)].resource_ids;
            &&& forall|id: Seq<char>| #[trigger] ids.contains(id) <==> is_known_as(resource, id)
            &&& forall|j: int, k: int|
                0 <= j < k < ids.len() ==> #[trigger] ids[j] != #[trigger] ids[k]
        }),
{
    reveal_strlit("Lore");
    reveal_strlit("Faith");
    reveal_strlit("MilitaryXP");
    reveal_strlit("HuntTrophy");
    let ids = configs()[place(resource)].resource_ids;
    if resource is Lore {
        assert(ids[0].len() == 4 && ids[1].len() == 5);
    }
    if resource is MilitaryXp {
        assert(ids[0][0] == 'M' && ids[1][0] == 'H');
    }
    assert forall|id: Seq<char>| #[trigger] ids.contains(id) <==> is_known_as(resource, id) by {
        if is_known_as(resource, id) {
            assert(ids[0] == id || ids[1] == id);
        }
    }
}

/// The marker of a resource stands for that resource, and for no other: of all grants exactly one goes
/// by it, and that one gives the resource, in the amount that a grant of its kind is worth.
pub proof fn law_marker_stands_for_its_resource(dir: Seq<char>, resource: Resource, kind: GrantKind)
    ensures
        ({
            let grants = grants_of(configs(), dir);
            let path = dir + marker_name(resource, kind);
            exists|i: int|
                0 <= i < grants.len() && (#[trigger] grants[i]).marker_path == path && gives(
                    grants[i],
                    resource,
                    kind,
                ) && forall|j: int|
                    0 <= j < grants.len() && (#[trigger] grants[j]).marker_path == path ==> j == i
        }),
{
    let grants = grants_of(configs(), dir);
    let path = dir + marker_name(resource, kind);
    let i = grant_place(resource, kind);
    lemma_marker_name(resource, kind);
    lemma_identifiers(resource);
    assert(grants[i].marker_path =~= path);
    assert forall|j: int| 0 <= j < grants.len() && (#[trigger] grants[j]).marker_path
        == path implies j == i by {
        law_markers_differ(dir, i, j);
    }
    assert(gives(grants[i], resource, kind));
}

/// There are no other grants: each gives one of the resources, and goes by the marker of that one.
pub proof fn law_every_grant_has_a_marker_of_its_resource(dir: Seq<char>, i: int)
    requires
        0 <= i < grants_of(configs(), dir).len(),
    ensures
        exists|resource: Resource, kind: GrantKind| #[trigger]
            gives(grants_of(configs(), dir)[i], resource, kind) && grants_of(
                configs(),
                dir,
            )[i].marker_path == dir + marker_name(resource, kind),
{
    let grant = grants_of(configs(), dir)[i];
    let n = i / 2;
    let resource = if n == 0 {
        Resource::Money
    } else if n == 1 {
        Resource::Food
    } else if n == 2 {
        Resource::Wood
    } else if n == 3 {
        Resource::Lore
    } else if n == 4 {
        Resource::Stone
    } else if n == 5 {
        Resource::Iron
    } else {
        Resource::MilitaryXp
    };
    assert(place(resource) == n);
    lemma_marker_name(resource, grant.kind);
    lemma_identifiers(resource);
    assert(grant.marker_path =~= dir + marker_name(resource, grant.kind));
    assert(gives(grant, resource, grant.kind));
}

/// No identifier belongs to two resources.
pub proof fn law_identifiers_belong_to_one_resource(i: int, j: int, id: Seq<char>)
    requires
        0 <= i < configs().len(),
        0 <= j < configs().len(),
        configs()[i].resource_ids.contains(id),
        configs()[j].resource_ids.contains(id),
    ensures
        i == j,
{
    reveal_strlit("Money");
    reveal_strlit("Food");
    reveal_strlit("Wood");
    reveal_strlit("Lore");
    reveal_strlit("Faith");
    reveal_strlit("Stone");
    reveal_strlit("Iron");
    reveal_strlit("MilitaryXP");
    reveal_strlit("HuntTrophy");
    let a = configs()[i].resource_ids;
    let b = configs()[j].resource_ids;
    let k = choose|k: int| 0 <= k < a.len() && a[k] == id;
    let l = choose|l: int| 0 <= l < b.len() && b[l] == id;
    assert(id.len() >= 4);
    assert(a[k].len() == b[l].len() && a[k][0] == b[l][0]);
}

/// A text without its underscores.
pub open spec fn without_underscores(s: Seq<char>) -> Seq<char>
    decreases s.len(),
{
    if s.len() == 0 {
        s
    } else if s.last() == '_' {
        without_underscores(s.drop_last())
    } else {
        without_underscores(s.drop_last()).push(s.last())
    }
}

/// A text that has no underscores stays as it is.
proof fn lemma_no_underscores(s: Seq<char>)
    requires
        forall|i: int| 0 <= i < s.len() ==> #[trigger] s[i] != '_',
    ensures
        without_underscores(s) == s,
    decreases s.len(),
{
    if s.len() > 0 {
        lemma_no_underscores(s.drop_last());
        assert(s.drop_last().push(s.last()) =~= s);
    }
}

/// One underscore between two texts is left out.
proof fn lemma_one_underscore(a: Seq<char>, b: Seq<char>)
    requires
        forall|i: int| 0 <= i < a.len() ==> #[trigger] a[i] != '_',
        forall|i: int| 0 <= i < b.len() ==> #[trigger] b[i] != '_',
    ensures
        without_underscores(a.push('_') + b) == a + b,
    decreases b.len(),
{
    let s = a.push('_') + b;
    if b.len() == 0 {
        assert(s.drop_last() =~= a);
        lemma_no_underscores(a);
        assert(a + b =~= a);
    } else {
        lemma_one_underscore(a, b.drop_last());
        assert(s.drop_last() =~= a.push('_') + b.drop_last());
        assert((a + b.drop_last()).push(b.last()) =~= a + b);
    }
}

/// The key of a resource is the name that the game knows it by, but for the case of letters and for
/// underscores between words.
pub proof fn law_key_is_the_name_of_the_resource(i: int)
    requires
        0 <= i < configs().len(),
    ensures
        ({
            let key = without_underscores(configs()[i].key);
            let id = configs()[i].resource_ids[0];
            &&& configs()[i].resource_ids.len() > 0
            &&& key.len() == id.len()
            &&& forall|k: int| 0 <= k < key.len() ==> same_letter(#[trigger] key[k], id[k])
        }),
{
    reveal_strlit("money");
    reveal_strlit("food");
    reveal_strlit("wood");
    reveal_strlit("lore");
    reveal_strlit("stone");
    reveal_strlit("iron");
    reveal_strlit("military_xp");
    reveal_strlit("Money");
    reveal_strlit("Food");
    reveal_strlit("Wood");
    reveal_strlit("Lore");
    reveal_strlit("Stone");
    reveal_strlit("Iron");
    reveal_strlit("MilitaryXP");
    let key = configs()[i].key;
    if i == 6 {
        let a = seq!['m', 'i', 'l', 'i', 't', 'a', 'r', 'y'];
        let b = seq!['x', 'p'];
        assert(key =~= a.push('_') + b);
        lemma_one_underscore(a, b);
    } else {
        lemma_no_underscores(key);
    }
}

/// The event adds that much of a resource to the resources `res`, under that identifier, for no stated
/// reason.
pub open spec fn adds(
    site: GrantSite,
    event: Event,
    res: Value,
    id: Seq<char>,
    amount: u32,
) -> bool {
    &&& event matches Event::Call(fun, args)
    &&& fun == site.add_resource
    &&& args.len() == 4
    &&& args[0] == res
    &&& args[1] matches Value::Made(fields)
    &&& fields[site.shape.bytes.0] == Value::Text(id)
    &&& args[2] == Value::Number(Float::Whole(amount))
    &&& args[3] is Null
}

/// Where the marker of a resource exists, and the grant has not been applied if it is one that is
/// applied once, that resource is added to the player's resources in the amount that the grant is
/// worth, under each identifier that the game knows it by, and nothing else is added.
pub proof fn law_marker_hands_out_its_resource(
    game: Game,
    site: GrantSite,
    sentinels: Sentinels,
    grant: GrantView,
    resource: Resource,
    player: Value,
    past: Seq<Event>,
)
    requires
        gives(grant, resource, grant.kind),
        marker_exists(game, site, grant, past),
        grant.kind is Useful ==> !is_applied(
            game,
            site,
            sentinel_of(sentinels, grant.key),
            player,
            past,
        ),
        site.shape.bytes != site.shape.length,
        site.add_resource != site.get_path,
        site.add_resource != site.exists,
        site.add_resource != site.delete,
    ensures
        ({
            let ran = slot_run(game, site, sentinels, grant, player, past);
            let asked = marker_asked(game, site, grant, past);
            let res = resources(game, site, player, asked);
            let amount = worth(resource, grant.kind);
            &&& past.is_prefix_of(ran)
            &&& forall|id: Seq<char>| #[trigger]
                is_known_as(resource, id) ==> exists|i: int|
                    past.len() <= i < ran.len() && adds(site, #[trigger] ran[i], res, id, amount)
            &&& forall|i: int|
                past.len() <= i < ran.len() && (#[trigger] ran[i] matches Event::Call(fun, _) && fun
                    == site.add_resource) ==> exists|id: Seq<char>| #[trigger]
                    is_known_as(resource, id) && adds(site, ran[i], res, id, amount)
        }),
{
    let ran = slot_run(game, site, sentinels, grant, player, past);
    let asked = marker_asked(game, site, grant, past);
    let res = resources(game, site, player, asked);
    let ids = grant.resource_ids;
    let amount = worth(resource, grant.kind);
    let n = asked.len() as int;
    assert(n == past.len() + 2);
    assert(past.is_prefix_of(ran));
    assert forall|k: int| 0 <= k < ids.len() implies adds(
        site,
        #[trigger] ran[n + k],
        res,
        ids[k],
        amount,
    ) by {
        assert(ran[n + k] == added_one(site, res, ids[k], grant.amount));
    }
    assert forall|id: Seq<char>| #[trigger] is_known_as(resource, id) implies exists|i: int|
        past.len() <= i < ran.len() && adds(site, #[trigger] ran[i], res, id, amount) by {
        assert(ids.contains(id));
        let k = choose|k: int| 0 <= k < ids.len() && ids[k] == id;
        assert(adds(site, ran[n + k], res, ids[k], amount));
    }
    assert forall|i: int|
        past.len() <= i < ran.len() && (#[trigger] ran[i] matches Event::Call(fun, _) && fun
            == site.add_resource) implies exists|id: Seq<char>| #[trigger]
        is_known_as(resource, id) && adds(site, ran[i], res, id, amount) by {
        if i < n {
            assert(ran[i] == asked[i]);
        } else if i < n + ids.len() {
            let k = i - n;
            assert(ids.contains(ids[k]));
            assert(adds(site, ran[n + k], res, ids[k], amount));
            assert(is_known_as(resource, ids[k]));
        }
    }
}

/// Where the marker of a grant does not exist, nothing is added and nothing is stored: the game is only
/// asked for the marker. The same holds of a player that the computer controls, for whom nothing
/// happens at all.
pub proof fn law_nothing_is_handed_out_otherwise(
    game: Game,
    site: GrantSite,
    ai_job: RefField,
    sentinels: Sentinels,
    grants: Seq<GrantView>,
    grant: GrantView,
    player: Value,
    past: Seq<Event>,
)
    ensures
        !marker_exists(game, site, grant, past) ==> {
            let ran = slot_run(game, site, sentinels, grant, player, past);
            ran == past || ran == marker_asked(game, site, grant, past)
        },
        !((game.field)(past, player, ai_job.0) is Null) ==> tick_run(
            game,
            site,
            ai_job,
            sentinels,
            grants,
            player,
            past,
        ) == past,
{
}

} // verus!
