use wg_subscriber::routes::{
    add_route, apply_advertised_routes, is_valid_cidr, route_exists, AdvertisedRoutes,
};

fn routes(v4: &[&str], v6: &[&str]) -> AdvertisedRoutes {
    AdvertisedRoutes {
        ipv4: v4.iter().map(|s| s.to_string()).collect(),
        ipv6: v6.iter().map(|s| s.to_string()).collect(),
    }
}

#[test]
fn networks_are_told_from_other_texts() {
    for good in ["10.0.0.0/8", "10.1.2.3/32", "0.0.0.0/0", "fd00::/64", "::/0"] {
        assert!(is_valid_cidr(good), "{}", good);
    }
    for bad in ["", "10.0.0.0", "10.0.0.0/33", "10.0.0/8", "fd00::/129", "x/8", "10.0.0.0/8 "] {
        assert!(!is_valid_cidr(bad), "{}", bad);
    }
}

#[test]
fn shown_routes_exist() {
    assert!(route_exists("10.0.0.0/8 dev wg0\n"));
    assert!(!route_exists(""));
    assert!(!route_exists(" \t\n"));
}

#[test]
fn routes_take_the_place_of_others() {
    let mut last = routes(&["10.1.0.0/16", "10.2.0.0/16"], &["fd01::/64"]);
    let plan = apply_advertised_routes(
        "wg0",
        &routes(&["10.2.0.0/16", "10.3.0.0/16", "10.3.0.0/16", "bad"], &["fd02::/64"]),
        &mut last,
    );
    assert_eq!(
        plan.deletions,
        vec![
            vec!["route", "del", "10.1.0.0/16", "dev", "wg0"],
            vec!["-6", "route", "del", "fd01::/64", "dev", "wg0"],
        ]
    );
    assert_eq!(plan.additions.len(), 2);
    assert_eq!(plan.additions[0].show, vec!["route", "show", "10.3.0.0/16"]);
    assert_eq!(
        plan.additions[0].replace,
        vec!["route", "replace", "10.3.0.0/16", "dev", "wg0"]
    );
    assert_eq!(plan.additions[1].show, vec!["-6", "route", "show", "fd02::/64"]);
    assert_eq!(
        plan.additions[1].replace,
        vec!["-6", "route", "replace", "fd02::/64", "dev", "wg0"]
    );
    assert_eq!(last.ipv4, vec!["10.2.0.0/16", "10.3.0.0/16", "bad"]);
    assert_eq!(last.ipv6, vec!["fd02::/64"]);
}

#[test]
fn same_routes_again_change_nothing() {
    let mut last = AdvertisedRoutes::none();
    let wanted = routes(&["10.0.0.0/8", "10.0.0.0/8", "bad"], &["fd00::/64"]);
    let first = apply_advertised_routes("wg0", &wanted, &mut last);
    assert_eq!(first.additions.len(), 2);
    let second = apply_advertised_routes("wg0", &wanted, &mut last);
    assert!(second.deletions.is_empty());
    assert!(second.additions.is_empty());
}

#[test]
fn same_routes_in_another_order_change_nothing() {
    let mut last = AdvertisedRoutes::none();
    let wanted = routes(&["10.0.0.0/8", "10.1.0.0/16"], &["fd00::/64", "fd01::/64"]);
    let first = apply_advertised_routes("wg0", &wanted, &mut last);
    assert_eq!(first.additions.len(), 4);
    let again = routes(
        &["10.1.0.0/16", "10.0.0.0/8", "10.1.0.0/16"],
        &["fd01::/64", "fd00::/64", "fd00::/64"],
    );
    let second = apply_advertised_routes("wg0", &again, &mut last);
    assert!(second.deletions.is_empty());
    assert!(second.additions.is_empty());
}

#[test]
fn no_routes_delete_all() {
    let mut last = routes(&["10.0.0.0/8"], &[]);
    let plan = apply_advertised_routes("wg0", &AdvertisedRoutes::none(), &mut last);
    assert_eq!(plan.deletions.len(), 1);
    assert!(plan.additions.is_empty());
    assert!(last.ipv4.is_empty());
}

#[test]
fn invalid_route_is_not_added() {
    assert!(add_route(false, "10.0.0.0/8", "wg0", false).is_none());
    let check = add_route(true, "fd00::/64", "wg0", true).unwrap();
    assert_eq!(check.show, vec!["-6", "route", "show", "fd00::/64"]);
}
