//! Power, toughness and keywords, told by what is printed, what permanents
//! carry and what the static abilities in play say.
use crate::filter::{finish_stats, modified, modifier_grants};
use crate::ir::Static;
use crate::laws_filter::lemma_zone_ids;
use crate::state::{CtxModel, GameModel, Modifier, ModifierKind, ObjectModel};
use crate::types::{sat_i32, Keyword, ObjectId, Zone};
use vstd::prelude::*;

verus! {

impl GameModel {
    /// No permanent has a static ability.
    pub open spec fn no_statics(self) -> bool {
        forall|id: ObjectId|
            #![trigger self.obj(id)]
            self.has_def(id) && self.obj(id).zone is Battlefield ==> self.def(id).statics.len() == 0
    }

    /// The `k`-th static ability of a permanent is `s`, or says `s` as long as
    /// something holds that does.
    pub open spec fn says(self, id: ObjectId, k: int, s: Static) -> bool {
        &&& 0 <= k < self.def(id).statics.len()
        &&& match self.def(id).statics[k] {
            Static::AsLongAs { condition, static_ } => *static_ == s && self.condition_at(
                self.depth(),
                condition,
                CtxModel::simple(self.obj(id).controller, Some(id)),
            ),
            own => own == s,
        }
    }
}

// ----- static abilities -----

proof fn lemma_statics_of(g: GameModel, w: ObjectId, n: nat, id: ObjectId, s: Static)
    requires
        n <= g.def(w).statics.len(),
    ensures
        g.statics_of(g.depth(), w, n).contains((id, s)) <==> id == w && exists|k: int|
            0 <= k < n && #[trigger] g.says(w, k, s),
    decreases n,
{
    if n > 0 {
        lemma_statics_of(g, w, (n - 1) as nat, id, s);
        let rest = g.statics_of(g.depth(), w, (n - 1) as nat);
        let all = g.statics_of(g.depth(), w, n);
        let x = (id, s);
        assert(all.len() == rest.len() || all.len() == rest.len() + 1);
        assert(forall|i: int| 0 <= i < rest.len() ==> all[i] == rest[i]);
        if rest.contains(x) {
            let i = choose|i: int| 0 <= i < rest.len() && rest[i] == x;
            assert(all[i] == x);
            let k = choose|k: int| 0 <= k < n - 1 && #[trigger] g.says(w, k, s);
            assert(0 <= k < n && g.says(w, k, s));
        }
        if g.says(w, n - 1, s) && id == w {
            assert(all[rest.len() as int] == x);
        }
        if all.contains(x) && !rest.contains(x) {
            let i = choose|i: int| 0 <= i < all.len() && all[i] == x;
            if i < rest.len() {
                assert(rest[i] == x);
            }
            assert(g.says(w, n - 1, s));
        }
    }
}

proof fn lemma_statics_n(g: GameModel, n: nat, id: ObjectId, s: Static)
    requires
        n <= g.on_battlefield().len(),
    ensures
        g.statics_n(g.depth(), n).contains((id, s)) <==> g.statics_active(id) && (exists|i: int|
            0 <= i < n && #[trigger] g.on_battlefield()[i] == id) && exists|k: int|
            #[trigger] g.says(id, k, s),
    decreases n,
{
    let ids = g.on_battlefield();
    let x = (id, s);
    if n > 0 {
        lemma_statics_n(g, (n - 1) as nat, id, s);
        let w = ids[n - 1];
        let rest = g.statics_n(g.depth(), (n - 1) as nat);
        let own = g.statics_of(g.depth(), w, g.def(w).statics.len());
        let all = g.statics_n(g.depth(), n);
        lemma_statics_of(g, w, g.def(w).statics.len(), id, s);
        if g.statics_active(w) {
            assert(all == rest + own);
            if own.contains(x) {
                let i = choose|i: int| 0 <= i < own.len() && own[i] == x;
                assert(all[rest.len() + i] == x);
                assert(ids[n - 1] == id);
            }
        }
        if rest.contains(x) {
            let i = choose|i: int| 0 <= i < rest.len() && rest[i] == x;
            assert(all[i] == x);
            let j = choose|j: int| 0 <= j < n - 1 && #[trigger] ids[j] == id;
            assert(0 <= j < n && ids[j] == id);
        }
        if all.contains(x) && !rest.contains(x) {
            let i = choose|i: int| 0 <= i < all.len() && all[i] == x;
            if i < rest.len() {
                assert(rest[i] == x);
            } else {
                assert(own[i - rest.len()] == x);
            }
        }
    }
}

/// The static abilities in play are those of permanents on the battlefield,
/// those of an aura or equipment only while it is attached, and those that hold
/// "as long as" something does only while it does.
pub proof fn law_static_abilities_in_play(g: GameModel, id: ObjectId, s: Static)
    requires
        g.objects.len() <= u32::MAX,
    ensures
        g.statics(g.depth()).contains((id, s)) <==> g.has_def(id) && g.obj(id).zone is Battlefield
            && (g.def(id).aura() || g.def(id).equipment() ==> g.obj(id).attached_to is Some)
            && exists|k: int| #[trigger] g.says(id, k, s),
{
    let ids = g.on_battlefield();
    lemma_zone_ids(g, Zone::Battlefield, g.objects.len());
    lemma_statics_n(g, ids.len(), id, s);
    assert(ids.contains(id) <==> exists|i: int| 0 <= i < ids.len() && #[trigger] ids[i] == id);
    assert(g.statics(g.depth()) == g.statics_n(g.depth(), ids.len()));
}

proof fn lemma_plain_n(g: GameModel, d: nat, n: nat)
    requires
        g.objects.len() <= u32::MAX,
        g.no_statics(),
        n <= g.on_battlefield().len(),
    ensures
        g.statics_n(d, n).len() == 0,
    decreases n,
{
    if n > 0 {
        lemma_plain_n(g, d, (n - 1) as nat);
        lemma_zone_ids(g, Zone::Battlefield, g.objects.len());
        let id = g.on_battlefield()[n - 1];
        assert(g.on_battlefield().contains(id));
        assert(g.obj(id).zone is Battlefield);
        assert(g.statics_of(d, id, 0).len() == 0);
    }
}

/// While no permanent has a static ability, none is in play.
pub proof fn lemma_plain(g: GameModel, d: nat)
    requires
        g.objects.len() <= u32::MAX,
        g.no_statics(),
    ensures
        g.statics(d).len() == 0,
{
    lemma_plain_n(g, d, g.on_battlefield().len());
}

// ----- keywords -----

proof fn lemma_granted(g: GameModel, id: ObjectId, k: Keyword, n: nat)
    requires
        n <= g.statics(g.depth()).len(),
    ensures
        g.granted(g.depth(), id, k, g.statics(g.depth()), n) <==> exists|i: int|
            0 <= i < n && g.grants(#[trigger] g.statics(g.depth())[i], id, k),
    decreases n,
{
    let ss = g.statics(g.depth());
    if n > 0 {
        lemma_granted(g, id, k, (n - 1) as nat);
        if g.granted(g.depth(), id, k, ss, (n - 1) as nat) {
            let i = choose|i: int| 0 <= i < n - 1 && g.grants(#[trigger] ss[i], id, k);
            assert(0 <= i < n && g.grants(ss[i], id, k));
        }
        if g.grants(ss[n - 1], id, k) {
            assert(0 <= n - 1 < n && g.grants(ss[n - 1], id, k));
        }
    }
}

impl GameModel {
    /// A static ability in play gives the permanent the keyword.
    pub open spec fn grants(self, s: (ObjectId, Static), id: ObjectId, k: Keyword) -> bool {
        let ctx = self.static_ctx(s.0);
        match s.1 {
            Static::PtBoost { filter, keywords, .. } => keywords@.contains(k) && self.matches(
                self.depth(),
                id,
                filter,
                ctx,
            ),
            Static::GrantKeyword { filter, keyword } => keyword == k && self.matches(
                self.depth(),
                id,
                filter,
                ctx,
            ),
            _ => false,
        }
    }
}

/// An object has a keyword that is printed on it, that it carries for a while,
/// or, on the battlefield, that a static ability in play gives it; and no other.
pub proof fn law_where_keywords_come_from(g: GameModel, id: ObjectId, k: Keyword)
    requires
        g.has_def(id),
    ensures
        g.has_keyword(id, k) <==> {
            ||| g.def(id).keywords.contains(k)
            ||| exists|i: int|
                0 <= i < g.obj(id).modifiers.len() && (#[trigger] g.obj(id).modifiers[i]).kind
                    == ModifierKind::Keyword(k)
            ||| g.obj(id).zone is Battlefield && exists|i: int|
                0 <= i < g.statics(g.depth()).len() && g.grants(
                    #[trigger] g.statics(g.depth())[i],
                    id,
                    k,
                )
        },
{
    lemma_granted(g, id, k, g.statics(g.depth()).len());
    assert(modifier_grants(g.obj(id).modifiers, k) <==> exists|i: int|
        0 <= i < g.obj(id).modifiers.len() && (#[trigger] g.obj(id).modifiers[i]).kind
            == ModifierKind::Keyword(k));
}

/// While no permanent has a static ability, a keyword is printed or carried.
pub proof fn law_plain_keywords(g: GameModel, id: ObjectId, k: Keyword)
    requires
        g.has_def(id),
        g.objects.len() <= u32::MAX,
        g.no_statics(),
    ensures
        g.has_keyword(id, k) <==> {
            ||| g.def(id).keywords.contains(k)
            ||| exists|i: int|
                0 <= i < g.obj(id).modifiers.len() && (#[trigger] g.obj(id).modifiers[i]).kind
                    == ModifierKind::Keyword(k)
        },
{
    lemma_plain(g, g.depth());
    law_where_keywords_come_from(g, id, k);
}

// ----- power and toughness -----

proof fn lemma_modified_prefix(a: Seq<Modifier>, m: Modifier, base: (i32, i32), n: nat)
    requires
        n <= a.len(),
    ensures
        modified(a.push(m), base, n) == modified(a, base, n),
    decreases n,
{
    if n > 0 {
        lemma_modified_prefix(a, m, base, (n - 1) as nat);
    }
}

/// With nothing else in play, a creature has its printed power and toughness,
/// one more for each +1/+1 counter on it and one less for each -1/-1 counter;
/// what has none printed has none.
pub proof fn law_printed_stats(g: GameModel, id: ObjectId)
    requires
        g.has_def(id),
        g.objects.len() <= u32::MAX,
        g.no_statics() || !(g.obj(id).zone is Battlefield),
    ensures
        g.pt(id) is Some <==> g.def(id).pt is Some,
        g.obj(id).modifiers.len() == 0 && g.def(id).pt is Some ==> {
            let (p, t) = g.def(id).pt->0;
            let net = g.obj(id).counters.plus1 - g.obj(id).counters.minus1;
            &&& i32::MIN <= p + net <= i32::MAX && i32::MIN <= t + net <= i32::MAX ==> g.pt(id)
                == Some(((p + net) as i32, (t + net) as i32))
        },
{
    if g.obj(id).zone is Battlefield {
        lemma_plain(g, g.depth());
    }
}

/// "Gets +a/+b" adds just that to what the creature had, for as long as it
/// carries it.
pub proof fn law_modifiers_add(g: GameModel, id: ObjectId, m: Modifier)
    requires
        g.has_def(id),
        g.objects.len() <= u32::MAX,
        g.no_statics() || !(g.obj(id).zone is Battlefield),
        g.def(id).pt is Some,
    ensures
        ({
            let o = g.obj(id);
            let h = g.with_obj(id, ObjectModel { modifiers: o.modifiers.push(m), ..o });
            let (p, t) = g.pt(id)->0;
            match m.kind {
                ModifierKind::Pt { power, toughness } => i32::MIN <= p + power <= i32::MAX
                    && i32::MIN <= t + toughness <= i32::MAX ==> h.pt(id) == Some(
                    ((p + power) as i32, (t + toughness) as i32),
                ),
                _ => h.pt(id) == Some((p, t)),
            }
        }),
{
    let o = g.obj(id);
    let h = g.with_obj(id, ObjectModel { modifiers: o.modifiers.push(m), ..o });
    assert forall|x: ObjectId|
        #![trigger h.obj(x)]
        g.no_statics() && h.has_def(x) && h.obj(x).zone is Battlefield implies h.def(
        x,
    ).statics.len() == 0 by {
        if x != id {
            assert(h.obj(x) == g.obj(x));
        }
        assert(g.obj(x).zone is Battlefield);
    }
    if g.obj(id).zone is Battlefield {
        lemma_plain(g, g.depth());
        lemma_plain(h, h.depth());
    }
    let net = o.counters.plus1 - o.counters.minus1;
    let pt = g.def(id).pt->0;
    let base = (sat_i32(pt.0 + net), sat_i32(pt.1 + net));
    lemma_modified_prefix(o.modifiers, m, base, o.modifiers.len());
    assert(h.obj(id).modifiers == o.modifiers.push(m));
    assert(h.def(id) == g.def(id));
    assert(h.pt(id) == Some(finish_stats(h.obj(id), pt)));
    assert(g.pt(id) == Some(finish_stats(o, pt)));
}

impl GameModel {
    /// What a static ability in play adds to a creature, if it boosts it.
    pub open spec fn boost(self, s: (ObjectId, Static), id: ObjectId) -> Option<(int, int)> {
        let ctx = self.static_ctx(s.0);
        match s.1 {
            Static::PtBoost { filter, power, toughness, .. } => if self.matches(
                self.depth(),
                id,
                filter,
                ctx,
            ) {
                Some(
                    (
                        self.amount_at(self.depth(), power, ctx) as int,
                        self.amount_at(self.depth(), toughness, ctx) as int,
                    ),
                )
            } else {
                None
            },
            _ => None,
        }
    }
}

proof fn lemma_boosted(g: GameModel, id: ObjectId, base: (i32, i32), k: int, n: nat)
    requires
        n <= g.statics(g.depth()).len(),
        forall|i: int|
            0 <= i < g.statics(g.depth()).len() && i != k ==> g.boost(
                #[trigger] g.statics(g.depth())[i],
                id,
            ) is None,
    ensures
        ({
            let ss = g.statics(g.depth());
            let out = g.boosted(g.depth(), id, ss, base, n);
            if 0 <= k < n && g.boost(ss[k], id) is Some {
                let (a, b) = g.boost(ss[k], id)->0;
                out == (sat_i32(base.0 + a), sat_i32(base.1 + b))
            } else {
                out == base
            }
        }),
    decreases n,
{
    if n > 0 {
        lemma_boosted(g, id, base, k, (n - 1) as nat);
        let s = g.statics(g.depth())[n - 1];
    }
}

/// With exactly one static ability in play that boosts it, a creature that
/// carries nothing has its printed power and toughness and what that adds.
pub proof fn law_one_boost_adds(g: GameModel, id: ObjectId, k: int, a: int, b: int)
    requires
        g.has_def(id),
        g.obj(id).zone is Battlefield,
        g.obj(id).modifiers.len() == 0,
        g.obj(id).counters.plus1 == g.obj(id).counters.minus1,
        g.def(id).pt is Some,
        0 <= k < g.statics(g.depth()).len(),
        g.boost(g.statics(g.depth())[k], id) == Some((a, b)),
        forall|i: int|
            0 <= i < g.statics(g.depth()).len() && i != k ==> g.boost(
                #[trigger] g.statics(g.depth())[i],
                id,
            ) is None,
        i32::MIN <= g.def(id).pt.unwrap().0 + a <= i32::MAX,
        i32::MIN <= g.def(id).pt.unwrap().1 + b <= i32::MAX,
    ensures
        g.pt(id) == Some(
            ((g.def(id).pt.unwrap().0 + a) as i32, (g.def(id).pt.unwrap().1 + b) as i32),
        ),
{
    let base = g.def(id).pt->0;
    lemma_boosted(g, id, base, k, g.statics(g.depth()).len());
}

} // verus!
