//! The routes that the server advertises.
use vstd::prelude::*;

use crate::foreign::{cidr_accepted, is_cidr};
use crate::list::{
    difference, distinct, lacking, lemma_distinct, lemma_lacking, lemma_nothing_lacking,
    lemma_same_elements, put, unique,
};
use crate::text::{owned, trim, trimmed, Text};

verus! {

/// Routes into the tunnel, in CIDR notation.
pub struct AdvertisedRoutes {
    pub ipv4: Vec<String>,
    pub ipv6: Vec<String>,
}

/// What an `AdvertisedRoutes` says.
#[verifier::ext_equal]
pub struct RoutesModel {
    pub ipv4: Seq<Text>,
    pub ipv6: Seq<Text>,
}

impl DeepView for AdvertisedRoutes {
    type V = RoutesModel;

    open spec fn deep_view(&self) -> RoutesModel {
        RoutesModel { ipv4: self.ipv4.deep_view(), ipv6: self.ipv6.deep_view() }
    }
}

impl RoutesModel {
    /// No routes.
    pub open spec fn none() -> RoutesModel {
        RoutesModel { ipv4: Seq::empty(), ipv6: Seq::empty() }
    }

    /// The routes, each once.
    pub open spec fn once(self) -> RoutesModel {
        RoutesModel { ipv4: distinct(self.ipv4), ipv6: distinct(self.ipv6) }
    }
}

impl AdvertisedRoutes {
    /// No routes.
    pub fn none() -> (routes: AdvertisedRoutes)
        ensures
            routes.deep_view() == RoutesModel::none(),
    {
        AdvertisedRoutes { ipv4: Vec::new(), ipv6: Vec::new() }
    }
}

/// Whether the text is a network in CIDR notation.
pub fn is_valid_cidr(s: &str) -> (answer: bool)
    ensures
        answer == is_cidr(s@),
{
    cidr_accepted(s)
}

/// Whether `ip route show` found a route: it printed more than white space.
pub fn route_exists(stdout: &str) -> (answer: bool)
    ensures
        answer == (trimmed(stdout@).len() > 0),
{
    !trim(stdout).as_str().is_empty()
}

/// The arguments of `ip` that show the routes to a network.
pub open spec fn show_args(v6: bool, cidr: Text) -> Seq<Text> {
    if v6 {
        seq!["-6"@, "route"@, "show"@, cidr]
    } else {
        seq!["route"@, "show"@, cidr]
    }
}

/// The arguments of `ip` that change a route into the tunnel.
pub open spec fn route_args(v6: bool, verb: Text, cidr: Text, interface: Text) -> Seq<Text> {
    if v6 {
        seq!["-6"@, "route"@, verb, cidr, "dev"@, interface]
    } else {
        seq!["route"@, verb, cidr, "dev"@, interface]
    }
}

/// A route to add, unless `show` prints that it is there.
pub struct RouteCheck {
    pub show: Vec<String>,
    pub replace: Vec<String>,
}

/// What a `RouteCheck` says.
#[verifier::ext_equal]
pub struct CheckModel {
    pub show: Seq<Text>,
    pub replace: Seq<Text>,
}

impl DeepView for RouteCheck {
    type V = CheckModel;

    open spec fn deep_view(&self) -> CheckModel {
        CheckModel { show: self.show.deep_view(), replace: self.replace.deep_view() }
    }
}

/// How the advertised routes are applied: the deletions come first.
pub struct RoutePlan {
    pub deletions: Vec<Vec<String>>,
    pub additions: Vec<RouteCheck>,
}

/// What a `RoutePlan` says.
#[verifier::ext_equal]
pub struct RoutePlanModel {
    pub deletions: Seq<Seq<Text>>,
    pub additions: Seq<CheckModel>,
}

impl DeepView for RoutePlan {
    type V = RoutePlanModel;

    open spec fn deep_view(&self) -> RoutePlanModel {
        RoutePlanModel {
            deletions: self.deletions.deep_view(),
            additions: self.additions.deep_view(),
        }
    }
}

/// The deletions of those routes.
pub open spec fn deletions(v6: bool, cidrs: Seq<Text>, interface: Text) -> Seq<Seq<Text>> {
    cidrs.map_values(|c: Text| route_args(v6, "del"@, c, interface))
}

/// How a route is added: not at all, unless it is valid.
pub open spec fn addition(v6: bool, cidr: Text, interface: Text, valid: bool) -> Option<CheckModel> {
    if valid {
        Some(
            CheckModel {
                show: show_args(v6, cidr),
                replace: route_args(v6, "replace"@, cidr, interface),
            },
        )
    } else {
        None
    }
}

/// The additions of those of the routes that are valid.
pub open spec fn additions(v6: bool, cidrs: Seq<Text>, interface: Text) -> Seq<CheckModel>
    decreases cidrs.len(),
{
    if cidrs.len() == 0 {
        Seq::empty()
    } else {
        let before = additions(v6, cidrs.drop_last(), interface);
        match addition(v6, cidrs.last(), interface, is_cidr(cidrs.last())) {
            Some(check) => before.push(check),
            None => before,
        }
    }
}

/// How the routes `new` take the place of the routes `last`, which are each
/// there once: those that are no longer wanted are deleted, those that are
/// wanted anew are added.
pub open spec fn route_plan(interface: Text, new: RoutesModel, last: RoutesModel) -> RoutePlanModel {
    RoutePlanModel {
        deletions: deletions(false, lacking(last.ipv4, new.ipv4), interface) + deletions(
            true,
            lacking(last.ipv6, new.ipv6),
            interface,
        ),
        additions: additions(false, lacking(distinct(new.ipv4), last.ipv4), interface) + additions(
            true,
            lacking(distinct(new.ipv6), last.ipv6),
            interface,
        ),
    }
}

/// The arguments of `ip` that change a route into the tunnel.
fn route_command(v6: bool, verb: &str, cidr: &str, interface: &str) -> (args: Vec<String>)
    ensures
        args.deep_view() == route_args(v6, verb@, cidr@, interface@),
{
    if v6 {
        owned(vec!["-6", "route", verb, cidr, "dev", interface])
    } else {
        owned(vec!["route", verb, cidr, "dev", interface])
    }
}

/// How a route is added, where `valid` says whether it is a network.
pub fn add_route(v6: bool, cidr: &str, interface: &str, valid: bool) -> (check: Option<RouteCheck>)
    ensures
        check.deep_view() == addition(v6, cidr@, interface@, valid),
{
    if !valid {
        return None;
    }
    let show = if v6 {
        owned(vec!["-6", "route", "show", cidr])
    } else {
        owned(vec!["route", "show", cidr])
    };
    Some(RouteCheck { show, replace: route_command(v6, "replace", cidr, interface) })
}

/// Adds the deletions of those routes to `all`.
fn put_deletions(all: &mut Vec<Vec<String>>, v6: bool, cidrs: &Vec<String>, interface: &str)
    ensures
        final(all).deep_view() == old(all).deep_view() + deletions(
            v6,
            cidrs.deep_view(),
            interface@,
        ),
{
    let ghost before = all.deep_view();
    let ghost model = cidrs.deep_view();
    let mut i: usize = 0;
    while i < cidrs.len()
        invariant
            i <= cidrs@.len(),
            model == cidrs.deep_view(),
            all.deep_view() == before + deletions(v6, model.take(i as int), interface@),
        decreases cidrs@.len() - i,
    {
        assert(model[i as int] == cidrs@[i as int]@);
        put(all, route_command(v6, "del", cidrs[i].as_str(), interface));
        i = i + 1;
    }
    assert(model.take(i as int) == model);
}

/// Adds the additions of those routes to `all`.
fn put_additions(all: &mut Vec<RouteCheck>, v6: bool, cidrs: &Vec<String>, interface: &str)
    ensures
        final(all).deep_view() == old(all).deep_view() + additions(
            v6,
            cidrs.deep_view(),
            interface@,
        ),
{
    let ghost before = all.deep_view();
    let ghost model = cidrs.deep_view();
    let mut i: usize = 0;
    assert(model.take(0) == Seq::<Text>::empty());
    while i < cidrs.len()
        invariant
            i <= cidrs@.len(),
            model == cidrs.deep_view(),
            all.deep_view() == before + additions(v6, model.take(i as int), interface@),
        decreases cidrs@.len() - i,
    {
        assert(model[i as int] == cidrs@[i as int]@);
        assert(model.take(i + 1).drop_last() == model.take(i as int));
        let valid = is_valid_cidr(cidrs[i].as_str());
        match add_route(v6, cidrs[i].as_str(), interface, valid) {
            Some(check) => {
                put(all, check);
            },
            None => {},
        }
        i = i + 1;
    }
    assert(model.take(i as int) == model);
}

/// How the routes take the place of those that were applied last, which they
/// then are: those that turn out invalid, or to be there already, too.
pub fn apply_advertised_routes(
    interface: &str,
    routes: &AdvertisedRoutes,
    last: &mut AdvertisedRoutes,
) -> (plan: RoutePlan)
    ensures
        plan.deep_view() == route_plan(interface@, routes.deep_view(), old(last).deep_view()),
        final(last).deep_view() == routes.deep_view().once(),
{
    let ghost was = last.deep_view();
    let mut deletions: Vec<Vec<String>> = Vec::new();
    let old_v4 = difference(&last.ipv4, &routes.ipv4);
    let old_v6 = difference(&last.ipv6, &routes.ipv6);
    put_deletions(&mut deletions, false, &old_v4, interface);
    put_deletions(&mut deletions, true, &old_v6, interface);
    let new_v4 = unique(&routes.ipv4);
    let new_v6 = unique(&routes.ipv6);
    let mut additions: Vec<RouteCheck> = Vec::new();
    let add_v4 = difference(&new_v4, &last.ipv4);
    let add_v6 = difference(&new_v6, &last.ipv6);
    put_additions(&mut additions, false, &add_v4, interface);
    put_additions(&mut additions, true, &add_v6, interface);
    *last = AdvertisedRoutes { ipv4: new_v4, ipv6: new_v6 };
    let plan = RoutePlan { deletions, additions };
    assert(plan.deep_view() == route_plan(interface@, routes.deep_view(), was));
    plan
}

// ---------- what holds of the routes ----------

/// The same routes once more change nothing, in whatever order they come and
/// however often each.
pub proof fn law_same_routes_change_nothing(
    interface: Text,
    applied: RoutesModel,
    again: RoutesModel,
)
    requires
        applied.ipv4.to_set() == again.ipv4.to_set(),
        applied.ipv6.to_set() == again.ipv6.to_set(),
    ensures
        route_plan(interface, again, applied.once()).deletions == Seq::<Seq<Text>>::empty(),
        route_plan(interface, again, applied.once()).additions == Seq::<CheckModel>::empty(),
{
    lemma_none_lacking(applied.ipv4, again.ipv4);
    lemma_none_lacking(applied.ipv6, again.ipv6);
}

/// Between two lists of the same elements nothing is lacking.
proof fn lemma_none_lacking(a: Seq<Text>, b: Seq<Text>)
    requires
        a.to_set() == b.to_set(),
    ensures
        lacking(distinct(a), b) == Seq::<Text>::empty(),
        lacking(distinct(b), distinct(a)) == Seq::<Text>::empty(),
{
    lemma_same_elements(a);
    lemma_same_elements(b);
    assert forall|c: Text| a.contains(c) <==> b.contains(c) by {
        assert(a.contains(c) <==> a.to_set().contains(c));
        assert(b.contains(c) <==> b.to_set().contains(c));
    }
    assert forall|c: Text| distinct(b).contains(c) implies distinct(a).contains(c) by {
        assert(b.contains(c));
        assert(a.contains(c));
    }
    lemma_nothing_lacking(distinct(a), b);
    lemma_nothing_lacking(distinct(b), distinct(a));
}

/// A route is deleted only where it was applied and is no longer wanted, and
/// no route that stays wanted is touched by a deletion.
pub proof fn law_deletes_only_what_goes(new: RoutesModel, last: RoutesModel, cidr: Text)
    ensures
        lacking(last.ipv4, new.ipv4).contains(cidr) <==> last.ipv4.contains(cidr)
            && !new.ipv4.contains(cidr),
        lacking(last.ipv6, new.ipv6).contains(cidr) <==> last.ipv6.contains(cidr)
            && !new.ipv6.contains(cidr),
{
    lemma_lacking(last.ipv4, new.ipv4, cidr);
    lemma_lacking(last.ipv6, new.ipv6, cidr);
}

/// A route is looked at for addition exactly where it is wanted and was not applied.
pub proof fn law_adds_only_what_comes(new: RoutesModel, last: RoutesModel, cidr: Text)
    ensures
        lacking(distinct(new.ipv4), last.ipv4).contains(cidr) <==> new.ipv4.contains(cidr)
            && !last.ipv4.contains(cidr),
        lacking(distinct(new.ipv6), last.ipv6).contains(cidr) <==> new.ipv6.contains(cidr)
            && !last.ipv6.contains(cidr),
{
    lemma_lacking(distinct(new.ipv4), last.ipv4, cidr);
    lemma_lacking(distinct(new.ipv6), last.ipv6, cidr);
    lemma_same_elements(new.ipv4);
    lemma_same_elements(new.ipv6);
}

/// A route is deleted by a command exactly where it was applied and is no
/// longer wanted, for each family by itself.
pub proof fn law_unwanted_routes_are_deleted(
    interface: Text,
    new: RoutesModel,
    last: RoutesModel,
    cidr: Text,
)
    ensures
        route_plan(interface, new, last).deletions.contains(
            seq!["route"@, "del"@, cidr, "dev"@, interface],
        ) <==> last.ipv4.contains(cidr) && !new.ipv4.contains(cidr),
        route_plan(interface, new, last).deletions.contains(
            seq!["-6"@, "route"@, "del"@, cidr, "dev"@, interface],
        ) <==> last.ipv6.contains(cidr) && !new.ipv6.contains(cidr),
{
    let v4 = lacking(last.ipv4, new.ipv4);
    let v6 = lacking(last.ipv6, new.ipv6);
    let a = deletions(false, v4, interface);
    let b = deletions(true, v6, interface);
    let all = route_plan(interface, new, last).deletions;
    assert(all == a + b);
    lemma_lacking(last.ipv4, new.ipv4, cidr);
    lemma_lacking(last.ipv6, new.ipv6, cidr);
    let x = seq!["route"@, "del"@, cidr, "dev"@, interface];
    let y = seq!["-6"@, "route"@, "del"@, cidr, "dev"@, interface];
    assert forall|i: int| 0 <= i < a.len() implies #[trigger] a[i] == seq![
        "route"@,
        "del"@,
        v4[i],
        "dev"@,
        interface,
    ] by {}
    assert forall|i: int| 0 <= i < b.len() implies #[trigger] b[i] == seq![
        "-6"@,
        "route"@,
        "del"@,
        v6[i],
        "dev"@,
        interface,
    ] by {}
    if v4.contains(cidr) {
        let i = choose|i: int| 0 <= i < v4.len() && v4[i] == cidr;
        assert(all[i] == a[i]);
        assert(a[i] == x);
    }
    if v6.contains(cidr) {
        let i = choose|i: int| 0 <= i < v6.len() && v6[i] == cidr;
        assert(all[a.len() + i] == b[i]);
        assert(b[i] == y);
    }
    if all.contains(x) {
        let i = choose|i: int| 0 <= i < all.len() && all[i] == x;
        if i < a.len() {
            assert(a[i] == x);
            assert(a[i][2] == v4[i]);
            assert(x[2] == cidr);
            assert(v4[i] == cidr);
        } else {
            assert(b[i - a.len()] == x);
            assert(x.len() == 5);
            assert(b[i - a.len()].len() == 6);
        }
    }
    if all.contains(y) {
        let i = choose|i: int| 0 <= i < all.len() && all[i] == y;
        if i < a.len() {
            assert(a[i] == y);
            assert(y.len() == 6);
            assert(a[i].len() == 5);
        } else {
            assert(b[i - a.len()] == y);
            assert(b[i - a.len()][3] == v6[i - a.len()]);
            assert(y[3] == cidr);
            assert(v6[i - a.len()] == cidr);
        }
    }
}

/// The additions of some routes hold exactly those of the valid ones.
proof fn lemma_additions(v6: bool, cidrs: Seq<Text>, interface: Text, cidr: Text)
    ensures
        additions(v6, cidrs, interface).contains(
            CheckModel {
                show: show_args(v6, cidr),
                replace: route_args(v6, "replace"@, cidr, interface),
            },
        ) <==> cidrs.contains(cidr) && is_cidr(cidr),
        forall|i: int|
            0 <= i < additions(v6, cidrs, interface).len() ==> (#[trigger] additions(
                v6,
                cidrs,
                interface,
            )[i]).show.len() == if v6 {
                4int
            } else {
                3
            },
    decreases cidrs.len(),
{
    let check = CheckModel {
        show: show_args(v6, cidr),
        replace: route_args(v6, "replace"@, cidr, interface),
    };
    if cidrs.len() > 0 {
        let front = cidrs.drop_last();
        let last = cidrs.last();
        lemma_additions(v6, front, interface, cidr);
        let before = additions(v6, front, interface);
        let all = additions(v6, cidrs, interface);
        let at: int = if v6 {
            3
        } else {
            2
        };
        assert(cidrs[cidrs.len() - 1] == last);
        if before.contains(check) {
            let i = choose|i: int| 0 <= i < before.len() && before[i] == check;
            assert(all[i] == check);
        }
        if is_cidr(last) {
            assert(all.last().show == show_args(v6, last));
            assert(show_args(v6, last)[at] == last);
            assert(show_args(v6, cidr)[at] == cidr);
            if last == cidr {
                assert(all[before.len() as int] == check);
            }
        }
        if all.contains(check) {
            let i = choose|i: int| 0 <= i < all.len() && all[i] == check;
            if i < before.len() {
                assert(before[i] == check);
            } else {
                assert(all.last() == check);
            }
        }
        if cidrs.contains(cidr) {
            let i = choose|i: int| 0 <= i < cidrs.len() && cidrs[i] == cidr;
            if i < front.len() {
                assert(front[i] == cidr);
            }
        }
        if front.contains(cidr) {
            let i = choose|i: int| 0 <= i < front.len() && front[i] == cidr;
            assert(cidrs[i] == cidr);
        }
    }
}

/// A route is looked for, and set where it is not there, exactly where it is
/// wanted, was not applied, and is a network; for each family by itself.
pub proof fn law_wanted_routes_are_added(
    interface: Text,
    new: RoutesModel,
    last: RoutesModel,
    cidr: Text,
)
    ensures
        route_plan(interface, new, last).additions.contains(
            CheckModel {
                show: seq!["route"@, "show"@, cidr],
                replace: seq!["route"@, "replace"@, cidr, "dev"@, interface],
            },
        ) <==> new.ipv4.contains(cidr) && !last.ipv4.contains(cidr) && is_cidr(cidr),
        route_plan(interface, new, last).additions.contains(
            CheckModel {
                show: seq!["-6"@, "route"@, "show"@, cidr],
                replace: seq!["-6"@, "route"@, "replace"@, cidr, "dev"@, interface],
            },
        ) <==> new.ipv6.contains(cidr) && !last.ipv6.contains(cidr) && is_cidr(cidr),
{
    let v4 = lacking(distinct(new.ipv4), last.ipv4);
    let v6 = lacking(distinct(new.ipv6), last.ipv6);
    let a = additions(false, v4, interface);
    let b = additions(true, v6, interface);
    let all = route_plan(interface, new, last).additions;
    assert(all == a + b);
    law_adds_only_what_comes(new, last, cidr);
    lemma_additions(false, v4, interface, cidr);
    lemma_additions(true, v6, interface, cidr);
    let x = CheckModel {
        show: seq!["route"@, "show"@, cidr],
        replace: seq!["route"@, "replace"@, cidr, "dev"@, interface],
    };
    let y = CheckModel {
        show: seq!["-6"@, "route"@, "show"@, cidr],
        replace: seq!["-6"@, "route"@, "replace"@, cidr, "dev"@, interface],
    };
    assert(x.show.len() == 3 && y.show.len() == 4);
    if a.contains(x) {
        let i = choose|i: int| 0 <= i < a.len() && a[i] == x;
        assert(all[i] == x);
    }
    if b.contains(y) {
        let i = choose|i: int| 0 <= i < b.len() && b[i] == y;
        assert(all[a.len() + i] == y);
    }
    if all.contains(x) {
        let i = choose|i: int| 0 <= i < all.len() && all[i] == x;
        if i < a.len() {
            assert(a[i] == x);
        } else {
            assert(b[i - a.len()] == x);
        }
    }
    if all.contains(y) {
        let i = choose|i: int| 0 <= i < all.len() && all[i] == y;
        if i < a.len() {
            assert(a[i] == y);
        } else {
            assert(b[i - a.len()] == y);
        }
    }
}

/// What is remembered of the routes are all of them, each once.
pub proof fn law_routes_are_remembered_once(routes: RoutesModel, cidr: Text)
    ensures
        routes.once().ipv4.contains(cidr) <==> routes.ipv4.contains(cidr),
        routes.once().ipv6.contains(cidr) <==> routes.ipv6.contains(cidr),
        routes.once().ipv4.no_duplicates(),
        routes.once().ipv6.no_duplicates(),
        RoutesModel::none().ipv4.len() == 0 && RoutesModel::none().ipv6.len() == 0,
{
    lemma_same_elements(routes.ipv4);
    lemma_same_elements(routes.ipv6);
    lemma_distinct(routes.ipv4);
    lemma_distinct(routes.ipv6);
}

} // verus!
