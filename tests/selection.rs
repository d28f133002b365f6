use arbiter_agent::pools::{passes_filter, rank_pools, select_top_pools, LlamaPool, Quantity};

fn units(v: i64) -> Quantity {
    Quantity::Finite(v * 1_000_000)
}

fn pool(id: &str, chain: &str, symbol: &str, apy: Quantity, tvl: Quantity) -> LlamaPool {
    LlamaPool {
        pool: id.to_string(),
        chain: chain.to_string(),
        project: "proto".to_string(),
        symbol: symbol.to_string(),
        apy,
        tvl_usd: tvl,
    }
}

fn ids(v: &[LlamaPool]) -> Vec<String> {
    v.iter().map(|p| p.pool.clone()).collect()
}

fn mixed_catalog() -> Vec<LlamaPool> {
    vec![
        pool("a", "Mantle", "USDC", units(3), units(60_000)),
        pool("b", "mantle", "usdc-usdt", units(9), units(70_000)),
        pool("c", "MANTLE", "wUSDC", Quantity::Finite(9_000_000), units(80_000)),
        pool("d", "Mantle", "ETH", units(40), units(90_000)),
        pool("e", "Mantle", "USDC", units(20), units(40_000)),
        pool("f", "Mantle Testnet", "USDC", units(30), units(90_000)),
        pool("g", "Mantle", "USDC", units(5), Quantity::PosInfinity),
        pool("h", "Mantle", "USDC", Quantity::PosInfinity, units(90_000)),
        pool("i", "Mantle", "USDC", units(0), units(90_000)),
        pool("j", "Mantle", "USDC", units(-4), units(90_000)),
        pool("k", "Mantle", "USDC", units(7), Quantity::Undefined),
    ]
}

#[test]
fn scenario_only_matching_chain_and_symbol() {
    let pools = vec![
        pool("A", "Mantle", "USDC-A", Quantity::Finite(12_500_000), units(100_000)),
        pool("B", "Mantle", "USDT", units(50), units(1_000_000)),
        pool("C", "Base", "USDC", units(99), units(500_000)),
    ];
    let r = select_top_pools(&pools, "Mantle", "USDC", 5);
    assert_eq!(ids(&r), vec!["A".to_string()]);
    assert_eq!(r[0].apy, Quantity::Finite(12_500_000));
    assert_eq!(r[0].symbol, "USDC-A");
}

#[test]
fn scenario_tvl_below_floor_excluded() {
    let pools = vec![
        pool("low", "Mantle", "USDC", units(900), units(10_000)),
        pool("ok", "Mantle", "USDC", units(2), units(50_000)),
    ];
    let r = select_top_pools(&pools, "Mantle", "USDC", 5);
    assert_eq!(ids(&r), vec!["ok".to_string()]);
}

#[test]
fn tvl_just_below_floor_excluded() {
    let pools = vec![pool("x", "Mantle", "USDC", units(2), Quantity::Finite(49_999_999_999))];
    assert!(select_top_pools(&pools, "Mantle", "USDC", 5).is_empty());
}

#[test]
fn scenario_undefined_or_huge_apy_excluded() {
    let pools = vec![
        pool("nan", "Mantle", "USDC", Quantity::Undefined, units(100_000)),
        pool("huge", "Mantle", "USDC", units(2_000_000), units(100_000)),
        pool("ceiling", "Mantle", "USDC", units(1_000_000), units(100_000)),
        pool("inf", "Mantle", "USDC", Quantity::PosInfinity, units(100_000)),
        pool("neginf", "Mantle", "USDC", Quantity::NegInfinity, units(100_000)),
        pool("fine", "Mantle", "USDC", units(999_999), units(100_000)),
    ];
    let r = select_top_pools(&pools, "Mantle", "USDC", 10);
    assert_eq!(ids(&r), vec!["fine".to_string()]);
}

#[test]
fn scenario_zero_k_gives_empty() {
    let r = select_top_pools(&mixed_catalog(), "Mantle", "USDC", 0);
    assert!(r.is_empty());
    assert!(select_top_pools(&[], "Mantle", "USDC", 0).is_empty());
}

#[test]
fn empty_catalog_gives_empty() {
    assert!(select_top_pools(&[], "Mantle", "USDC", 7).is_empty());
}

#[test]
fn mixed_catalog_ranked_by_apy() {
    let r = select_top_pools(&mixed_catalog(), "Mantle", "USDC", 10);
    assert_eq!(ids(&r), vec!["b", "c", "g", "a"]);
}

#[test]
fn result_never_exceeds_k() {
    for k in 0..6usize {
        let r = select_top_pools(&mixed_catalog(), "mantle", "usdc", k);
        assert!(r.len() <= k);
        assert_eq!(r.len(), k.min(4));
    }
}

#[test]
fn every_member_passes_filters() {
    let r = select_top_pools(&mixed_catalog(), "MANTLE", "Usdc", 10);
    assert!(!r.is_empty());
    for p in &r {
        assert_eq!(p.chain.to_lowercase(), "mantle");
        assert!(p.symbol.to_lowercase().contains("usdc"));
        assert!(p.tvl_usd.meets_tvl_floor());
        match p.apy {
            Quantity::Finite(m) => assert!(m > 0 && m < 1_000_000_000_000),
            _ => panic!("non-finite yield selected"),
        }
    }
}

#[test]
fn result_sorted_non_increasing() {
    let r = select_top_pools(&mixed_catalog(), "Mantle", "USDC", 10);
    for w in r.windows(2) {
        assert!(w[0].apy.rank() >= w[1].apy.rank());
    }
}

#[test]
fn equal_yields_keep_input_order() {
    let pools = vec![
        pool("p1", "Mantle", "USDC", units(5), units(100_000)),
        pool("p2", "Mantle", "USDC", units(8), units(100_000)),
        pool("p3", "Mantle", "USDC", units(5), units(100_000)),
        pool("p4", "Mantle", "USDC", units(8), units(100_000)),
    ];
    let r = select_top_pools(&pools, "Mantle", "USDC", 10);
    assert_eq!(ids(&r), vec!["p2", "p4", "p1", "p3"]);
}

#[test]
fn identical_inputs_identical_outputs() {
    let cat = mixed_catalog();
    let r1 = select_top_pools(&cat, "Mantle", "USDC", 3);
    let r2 = select_top_pools(&cat, "Mantle", "USDC", 3);
    assert_eq!(ids(&r1), ids(&r2));
    assert_eq!(ids(&r1), vec!["b", "c", "g"]);
}

#[test]
fn chain_match_is_exact_not_substring() {
    let pools = vec![pool("t", "Mantle Testnet", "USDC", units(3), units(100_000))];
    assert!(select_top_pools(&pools, "Mantle", "USDC", 5).is_empty());
}

#[test]
fn empty_hint_matches_every_symbol() {
    let pools = vec![
        pool("x", "Mantle", "ETH", units(3), units(100_000)),
        pool("y", "Mantle", "", units(4), units(100_000)),
    ];
    assert_eq!(ids(&select_top_pools(&pools, "Mantle", "", 5)), vec!["y", "x"]);
}

#[test]
fn duplicate_copies_every_field() {
    let p = pool("id", "Mantle", "USDC", units(3), Quantity::PosInfinity);
    let q = p.duplicate();
    assert_eq!(q.pool, "id");
    assert_eq!(q.chain, "Mantle");
    assert_eq!(q.project, "proto");
    assert_eq!(q.symbol, "USDC");
    assert_eq!(q.apy, units(3));
    assert_eq!(q.tvl_usd, Quantity::PosInfinity);
}

#[test]
fn quantity_predicates() {
    assert!(units(50_000).meets_tvl_floor());
    assert!(!Quantity::Finite(49_999_999_999).meets_tvl_floor());
    assert!(Quantity::PosInfinity.meets_tvl_floor());
    assert!(!Quantity::Undefined.meets_tvl_floor());
    assert!(!Quantity::NegInfinity.meets_tvl_floor());
    assert!(Quantity::Finite(1).is_plausible_apy());
    assert!(!Quantity::Finite(0).is_plausible_apy());
    assert!(!Quantity::Finite(1_000_000_000_000).is_plausible_apy());
    assert!(Quantity::Finite(999_999_999_999).is_plausible_apy());
    assert!(!Quantity::PosInfinity.is_plausible_apy());
    assert_eq!(Quantity::Finite(-7).rank(), -7);
    assert_eq!(Quantity::Undefined.rank(), 0);
}

#[test]
fn passes_filter_on_folded_values() {
    let (ok_apy, ok_tvl) = (units(4), units(60_000));
    assert!(passes_filter("mantle", "usdc-a", ok_apy, ok_tvl, "mantle", "usdc"));
    assert!(!passes_filter("Mantle", "usdc-a", ok_apy, ok_tvl, "mantle", "usdc"));
    assert!(!passes_filter("mantle", "usdt", ok_apy, ok_tvl, "mantle", "usdc"));
    assert!(!passes_filter("mantle", "usdc", ok_apy, units(10_000), "mantle", "usdc"));
    assert!(!passes_filter("mantle", "usdc", Quantity::Undefined, ok_tvl, "mantle", "usdc"));
    assert!(!passes_filter("mantle", "usdc", units(2_000_000), ok_tvl, "mantle", "usdc"));
}

#[test]
fn rank_pools_orders_and_cuts() {
    let pools = vec![
        pool("x", "c", "s", units(1), units(1)),
        pool("y", "c", "s", units(7), units(1)),
        pool("z", "c", "s", units(7), units(1)),
        pool("w", "c", "s", units(3), units(1)),
    ];
    assert_eq!(ids(&rank_pools(pools, 3)), vec!["y", "z", "w"]);
    assert!(rank_pools(Vec::new(), 3).is_empty());
    let one = vec![pool("only", "c", "s", units(2), units(1))];
    assert!(rank_pools(one, 0).is_empty());
}
