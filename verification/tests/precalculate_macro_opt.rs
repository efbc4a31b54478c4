use recuerdame::binder::{bind_signature, ranges_of_bindings, BindError};
use recuerdame::config::{parse_config, Config, ConfigError, Entry, Mode};
use recuerdame::domain::{Domain, RangeDecl};
use recuerdame::funcs::{Add3Fn, AddFn, EvenOrAbsentFn, IdentityFn, MulFn, SquareFn, SubFn, SubSatI8Fn};
use recuerdame::table::{PrecalcFn, Table};

fn rd(start: i64, end: i64) -> RangeDecl {
    RangeDecl { start, end }
}

fn table_of<F: PrecalcFn>(func: F, ranges: Vec<RangeDecl>) -> Table<F> {
    let dom = Domain::new(ranges).expect("domain must be well formed");
    Table::new(func, dom)
}

fn add_table() -> Table<AddFn> {
    table_of(AddFn, vec![rd(0, 10), rd(0, 4)])
}

fn subtract_i8_table() -> Table<SubSatI8Fn> {
    table_of(SubSatI8Fn, vec![rd(-50, -1), rd(-127, -100)])
}

#[test]
fn equivalence_add() {
    let t = add_table();
    for a in 0..=10 {
        for b in 0..=4 {
            assert_eq!(t.get_option(&vec![a, b]), Some(AddFn.eval(&vec![a, b])));
        }
    }
}

#[test]
fn equivalence_identity_u8() {
    let t = table_of(IdentityFn, vec![rd(0, 255)]);
    for val in 0..=255 {
        assert_eq!(t.get_option(&vec![val]), Some(IdentityFn.eval(&vec![val])));
    }
}

#[test]
fn equivalence_subtract_i8() {
    let t = subtract_i8_table();
    for a in -50..=-1 {
        for b in -127..=-100 {
            assert_eq!(t.get_option(&vec![a, b]), Some(SubSatI8Fn.eval(&vec![a, b])));
        }
    }
}

#[test]
fn equivalence_multiply_usize() {
    let t = table_of(MulFn, vec![rd(0, 10), rd(1, 5)]);
    for x in 0..=10 {
        for y in 1..=5 {
            assert_eq!(t.get_option(&vec![x, y]), Some(MulFn.eval(&vec![x, y])));
        }
    }
}

#[test]
fn equivalence_single_value_range_test() {
    let t = table_of(SubFn, vec![rd(5, 5), rd(0, 10)]);
    for a in 5..=5 {
        for b in 0..=10 {
            assert_eq!(t.get_option(&vec![a, b]), Some(SubFn.eval(&vec![a, b])));
        }
    }
}

#[test]
fn equivalence_return_option() {
    let t = table_of(EvenOrAbsentFn, vec![rd(0, 5)]);
    for a in 0..=5 {
        assert_eq!(t.get_option(&vec![a]), Some(EvenOrAbsentFn.eval(&vec![a])));
    }
}

#[test]
fn equivalence_const_range_test() {
    let start: i64 = 10;
    let end: i64 = 20;
    let t = table_of(SquareFn, vec![rd(start, end)]);
    for i in start..=end {
        assert_eq!(t.get_option(&vec![i]), Some(SquareFn.eval(&vec![i])));
    }
}

#[test]
fn add_is_none_when_first_arg_is_out_of_bounds_upper() {
    assert_eq!(add_table().get_option(&vec![11, 0]), None);
}

#[test]
fn add_is_none_when_first_arg_is_out_of_bounds_lower() {
    assert_eq!(add_table().get_option(&vec![-1, 0]), None);
}

#[test]
fn add_is_none_when_second_arg_is_out_of_bounds_upper() {
    assert_eq!(add_table().get_option(&vec![0, 5]), None);
}

#[test]
fn add_is_none_when_second_arg_is_out_of_bounds_lower() {
    assert_eq!(add_table().get_option(&vec![0, -1]), None);
}

#[test]
fn subtract_i8_is_none_when_first_arg_is_out_of_bounds_upper() {
    assert_eq!(subtract_i8_table().get_option(&vec![0, -120]), None);
}

#[test]
fn subtract_i8_is_none_when_first_arg_is_out_of_bounds_lower() {
    assert_eq!(subtract_i8_table().get_option(&vec![-51, -120]), None);
}

#[test]
fn subtract_i8_is_none_when_second_arg_is_out_of_bounds_upper() {
    assert_eq!(subtract_i8_table().get_option(&vec![-5, -99]), None);
}

#[test]
fn subtract_i8_is_none_when_second_arg_is_out_of_bounds_lower() {
    assert_eq!(subtract_i8_table().get_option(&vec![-5, -128]), None);
}

#[test]
fn option_mode_scenario_add() {
    let t = add_table();
    assert_eq!(t.get_option(&vec![8, 2]), Some(10));
    assert_eq!(t.get_option(&vec![0, 0]), Some(0));
    assert_eq!(t.get_option(&vec![11, 0]), None);
    assert_eq!(t.get_option(&vec![0, 5]), None);
    assert_eq!(t.get_option(&vec![0, -1]), None);
}

#[test]
fn keep_mode_scenario_add() {
    let t = add_table();
    assert_eq!(t.get_keep(&vec![8, 2]), 10);
    assert_eq!(t.get_keep(&vec![25, 0]), 25);
}

#[test]
fn keep_mode_falls_back_over_full_domain() {
    let t = table_of(IdentityFn, vec![rd(-10, 10)]);
    for a in [i64::MIN, -9_000_000_000, -11, -10, 0, 10, 11, 9_000_000_000, i64::MAX] {
        assert_eq!(t.get_keep(&vec![a]), a);
    }
}

#[test]
fn basic_mode_reads_the_table() {
    let t = add_table();
    assert_eq!(t.get_basic(&vec![8, 2]), 10);
    assert_eq!(t.get_basic(&vec![10, 4]), 14);
    assert_eq!(t.get_basic(&vec![0, 0]), 0);
}

#[test]
fn three_param_mixed_sign_exhaustive() {
    let t = table_of(Add3Fn, vec![rd(0, 100), rd(0, 4), rd(-10, 10)]);
    assert_eq!(t.dom.size, 101 * 5 * 21);
    for a in 0..=100 {
        for b in 0..=4 {
            for c in -10..=10 {
                assert_eq!(t.get_option(&vec![a, b, c]), Some(a + b + c));
            }
        }
    }
    assert_eq!(t.get_option(&vec![101, 0, 0]), None);
    assert_eq!(t.get_option(&vec![0, 0, -11]), None);
}

#[test]
fn singleton_range_has_one_slot() {
    let d = Domain::new(vec![rd(5, 5)]).expect("singleton domain");
    assert_eq!(d.size, 1);
    let t = Table::new(IdentityFn, d);
    assert_eq!(t.get_option(&vec![5]), Some(5));
    assert_eq!(t.get_option(&vec![4]), None);
    assert_eq!(t.get_option(&vec![6]), None);
}

#[test]
fn boundary_endpoints_are_in_range() {
    let t = add_table();
    assert_eq!(t.get_option(&vec![0, 0]), Some(0));
    assert_eq!(t.get_option(&vec![10, 4]), Some(14));
    assert_eq!(t.get_option(&vec![10, 0]), Some(10));
    assert_eq!(t.get_option(&vec![0, 4]), Some(4));
    assert_eq!(t.get_option(&vec![-1, 0]), None);
    assert_eq!(t.get_option(&vec![11, 0]), None);
    assert_eq!(t.get_option(&vec![0, -1]), None);
    assert_eq!(t.get_option(&vec![0, 5]), None);
}

#[test]
fn empty_range_is_rejected() {
    assert!(Domain::new(vec![rd(5, 4)]).is_none());
    assert!(Domain::new(vec![rd(0, 10), rd(3, 2)]).is_none());
}

#[test]
fn domain_size_is_the_product_of_cardinalities() {
    let d = Domain::new(vec![rd(0, 10), rd(0, 4)]).expect("domain");
    assert_eq!(d.size, 55);
}

#[test]
fn index_and_coords_are_inverse() {
    let d = Domain::new(vec![rd(0, 10), rd(0, 4), rd(-10, 10)]).expect("domain");
    for i in 0..d.size {
        let args = d.coords(i);
        assert_eq!(d.index_of(&args), i);
    }
    assert_eq!(d.coords(0), vec![0, 0, -10]);
    assert_eq!(d.index_of(&vec![0, 0, -9]), 1);
    assert_eq!(d.index_of(&vec![1, 0, -10]), 5 * 21);
}

fn binding(name: &str, start: i64, end: i64) -> Entry<RangeDecl> {
    Entry::Binding { name: name.to_string(), range: rd(start, end) }
}

fn flag(name: &str) -> Entry<RangeDecl> {
    Entry::Flag { name: name.to_string() }
}

fn parsed(entries: Vec<Entry<RangeDecl>>) -> Config<RangeDecl> {
    parse_config(&entries).expect("payload must parse")
}

#[test]
fn parser_accepts_bindings_in_order() {
    let c = parsed(vec![binding("a", 0, 10), binding("b", 0, 4)]);
    assert_eq!(c.mode, Mode::Basic);
    assert_eq!(c.bindings.len(), 2);
    assert_eq!(c.bindings[0].name, "a");
    assert_eq!(c.bindings[0].range, rd(0, 10));
    assert_eq!(c.bindings[1].name, "b");
    assert_eq!(c.bindings[1].range, rd(0, 4));
}

#[test]
fn parser_selects_the_requested_mode() {
    assert_eq!(parsed(vec![binding("a", 0, 1), flag("option")]).mode, Mode::Optional);
    assert_eq!(parsed(vec![binding("a", 0, 1), flag("keep")]).mode, Mode::Keep);
    assert_eq!(parsed(vec![binding("a", 0, 1)]).mode, Mode::Basic);
}

#[test]
fn parser_rejects_a_duplicated_key() {
    let r = parse_config(&vec![binding("a", 0, 10), binding("a", 0, 4)]);
    match r {
        Err(ConfigError::DuplicateKey { name }) => assert_eq!(name, "a"),
        _ => panic!("expected a duplicate-key error"),
    }
}

#[test]
fn parser_rejects_an_unknown_flag() {
    let r = parse_config(&vec![binding("a", 0, 10), flag("fast")]);
    match r {
        Err(ConfigError::UnknownFlag { name }) => assert_eq!(name, "fast"),
        _ => panic!("expected an unknown-flag error"),
    }
}

#[test]
fn parser_rejects_both_modes_at_once() {
    let r = parse_config(&vec![binding("a", 0, 10), flag("option"), flag("keep")]);
    assert!(matches!(r, Err(ConfigError::ModeConflict)));
}

#[test]
fn binder_orders_ranges_by_parameter() {
    let c = parsed(vec![binding("b", 0, 4), binding("a", 0, 10)]);
    let params = vec!["a".to_string(), "b".to_string()];
    let bs = bind_signature(&c, &params, true).expect("all parameters are bound");
    assert_eq!(bs.len(), 2);
    assert_eq!(bs[0].name, "a");
    assert_eq!(bs[0].range, rd(0, 10));
    assert_eq!(bs[1].name, "b");
    assert_eq!(bs[1].range, rd(0, 4));
}

#[test]
fn binder_names_the_unbound_parameter() {
    let c = parsed(vec![binding("a", 0, 10)]);
    let params = vec!["a".to_string(), "b".to_string()];
    match bind_signature(&c, &params, true) {
        Err(BindError::UnboundParameter { name }) => assert_eq!(name, "b"),
        _ => panic!("expected an unbound-parameter error"),
    }
}

#[test]
fn binder_ignores_an_extra_range_key() {
    let c = parsed(vec![binding("a", 0, 10), binding("stray", 0, 1)]);
    let params = vec!["a".to_string()];
    let bs = bind_signature(&c, &params, true).expect("the stray key is tolerated");
    assert_eq!(bs.len(), 1);
    assert_eq!(bs[0].name, "a");
}

#[test]
fn binder_requires_a_return_type() {
    let c = parsed(vec![binding("a", 0, 10)]);
    let params = vec!["a".to_string()];
    assert!(matches!(
        bind_signature(&c, &params, false),
        Err(BindError::MissingReturnType)
    ));
}

#[test]
fn end_to_end_pipeline_builds_the_declared_table() {
    let c = parsed(vec![binding("a", 0, 10), binding("b", 0, 4), flag("option")]);
    assert_eq!(c.mode, Mode::Optional);
    let params = vec!["a".to_string(), "b".to_string()];
    let bs = bind_signature(&c, &params, true).expect("bound");
    let t = table_of(AddFn, ranges_of_bindings(&bs));
    assert_eq!(t.get_option(&vec![8, 2]), Some(10));
    assert_eq!(t.get_option(&vec![11, 0]), None);
}

#[test]
fn example_add_matches_direct_computation() {
    assert_eq!(recuerdame::add(8, 2), 10);
    assert_eq!(recuerdame::add(-3, 5), 2);
}
