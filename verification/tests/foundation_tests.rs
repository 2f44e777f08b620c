use incdb::foundation::axioms::{Structure, TypeId};
use incdb::foundation::bisimulation::BisimulationComputer;
use incdb::foundation::category::Morphism;
use incdb::foundation::coinduction::{CoinductiveChecker, FinalCoalgebra};
use incdb::foundation::internal_logic::{Omega, Predicate};
use incdb::foundation::nno::{NatDef, NnoWitness};
use incdb::foundation::type_system::{Type, TypeChecker};
use incdb::foundation::universe::UniverseHierarchy;
use incdb::foundation::witness::Witnesses;
use incdb::model::incidence::{IId, Incidence, Level, RoleId};
use incdb::model::value::Value;

#[test]
fn test_morphism() {
    let morph_id = IId(1);
    let category = IId(10);
    let dom = IId(2);
    let cod = IId(3);
    let morph = Morphism::new(morph_id, category, dom, cod);

    assert_eq!(morph.id, morph_id);
    assert_eq!(morph.category, category);
    assert_eq!(morph.dom, dom);
    assert_eq!(morph.cod, cod);
}

#[test]
fn test_omega() {
    let omega_id = IId(1);
    let omega = Omega::new(omega_id);
    assert_eq!(omega.id, omega_id);
}

#[test]
fn test_predicate() {
    let pred_id = IId(1);
    let domain = IId(2);
    let codomain = IId(3);
    let pred = Predicate::new(pred_id, domain, codomain);

    assert_eq!(pred.id, pred_id);
    assert_eq!(pred.domain, domain);
    assert_eq!(pred.codomain, codomain);
}

#[test]
fn test_nno_def() {
    let nat_ty = TypeId(IId(1));
    let zero = IId(2);
    let succ = IId(3);
    let nno = NatDef::new(nat_ty.clone(), zero, succ);

    assert_eq!(nno.nat_ty, nat_ty);
    assert_eq!(nno.zero, zero);
    assert_eq!(nno.succ, succ);
}

#[test]
fn test_type_creation() {
    let type_id = TypeId(IId(1));
    let level = Level::zero();
    let ty = Type::new(type_id, "TestType".to_string(), level);

    assert_eq!(ty.name, "TestType");
    assert_eq!(ty.signature.level, level);
}

#[test]
fn test_type_with_roles() {
    let type_id = TypeId(IId(1));
    let role = RoleId(1);
    let ty = Type::new(type_id, "TestType".to_string(), Level::zero()).with_required_role(role);

    assert_eq!(ty.signature.required_roles.len(), 1);
    assert_eq!(ty.signature.required_roles[0], role);
}

#[test]
fn test_universe_hierarchy() {
    let hierarchy = UniverseHierarchy::new();
    let level0 = Level::zero();
    let level1 = level0.next();

    assert!(hierarchy.can_reference(level0, level1));
    assert!(!hierarchy.can_reference(level1, level0));
}

#[test]
fn test_bisimulation() {
    let mut coalgebra = FinalCoalgebra::new();
    let id1 = IId(1);
    let id2 = IId(2);
    let id3 = IId(3);
    let id4 = IId(4);

    coalgebra.add_structure(id1, Structure::with_args(vec![id2]));
    coalgebra.add_structure(id3, Structure::with_args(vec![id4]));

    let computer = BisimulationComputer::new(&coalgebra);
    let result = computer.compute_bisimulation(id1, id3);

    assert!(!result.are_bisimilar || result.relation.contains(&(id2, id4)));
}

#[test]
fn test_final_coalgebra() {
    let mut coalgebra = FinalCoalgebra::new();
    let id1 = IId(1);
    let id2 = IId(2);

    coalgebra.add_structure(id1, Structure::with_args(vec![id2]));
    coalgebra.add_structure(id2, Structure::with_args(vec![id1]));

    assert!(coalgebra.get_structure(id1).is_some());
    assert!(coalgebra.get_structure(id2).is_some());
}

#[test]
fn test_coinductive_equality() {
    let mut coalgebra = FinalCoalgebra::new();
    let id1 = IId(1);
    let id2 = IId(2);
    let id3 = IId(3);
    let id4 = IId(4);

    coalgebra.add_structure(id1, Structure::with_args(vec![id2]));
    coalgebra.add_structure(id2, Structure::with_args(vec![id1]));
    coalgebra.add_structure(id3, Structure::with_args(vec![id4]));
    coalgebra.add_structure(id4, Structure::with_args(vec![id3]));

    let mut checker = CoinductiveChecker::new(&coalgebra, 10);
    assert!(checker.check_equality(id1, id3, 0));
}

// Additional scenarios.

#[test]
fn bisimulation_same_leaf_values_are_bisimilar() {
    let mut coalgebra = FinalCoalgebra::new();
    coalgebra.add_structure(IId(1), Structure::with_val(Value::integer(7)));
    coalgebra.add_structure(IId(2), Structure::with_val(Value::integer(7)));
    coalgebra.add_structure(IId(3), Structure::with_val(Value::integer(8)));
    let computer = BisimulationComputer::new(&coalgebra);
    let same = computer.compute_bisimulation(IId(1), IId(2));
    assert!(same.are_bisimilar);
    assert_eq!(same.relation, vec![(IId(1), IId(2))]);
    let different = computer.compute_bisimulation(IId(1), IId(3));
    assert!(!different.are_bisimilar);
    assert!(different.relation.is_empty());
    // Absent on both sides counts as matching.
    assert!(computer.compute_bisimulation(IId(50), IId(60)).are_bisimilar);
    // Symmetry.
    assert_eq!(
        computer.compute_bisimulation(IId(3), IId(1)).are_bisimilar,
        computer.compute_bisimulation(IId(1), IId(3)).are_bisimilar
    );
}

#[test]
fn coinductive_checker_depth_limit_and_mismatch() {
    let mut coalgebra = FinalCoalgebra::new();
    coalgebra.add_structure(IId(1), Structure::with_args(vec![IId(2)]));
    coalgebra.add_structure(IId(2), Structure::with_val(Value::integer(1)));
    coalgebra.add_structure(IId(3), Structure::with_args(vec![IId(4)]));
    coalgebra.add_structure(IId(4), Structure::with_val(Value::integer(2)));
    let mut checker = CoinductiveChecker::new(&coalgebra, 10);
    assert!(!checker.check_equality(IId(1), IId(3), 0));
    // Beyond the depth limit nothing is equal.
    let mut shallow = CoinductiveChecker::new(&coalgebra, 0);
    assert!(!shallow.check_equality(IId(2), IId(2), 1));
    // Each check starts afresh: asking again gives the same answer.
    let mut again = CoinductiveChecker::new(&coalgebra, 10);
    assert!(!again.check_equality(IId(2), IId(4), 0));
    assert!(!again.check_equality(IId(2), IId(4), 0));
    // A cycle met within one check counts as equal.
    let mut cyclic = FinalCoalgebra::new();
    cyclic.add_structure(IId(1), Structure::with_args(vec![IId(1)]));
    cyclic.add_structure(IId(2), Structure::with_args(vec![IId(2)]));
    assert!(CoinductiveChecker::new(&cyclic, 10).check_equality(IId(1), IId(2), 0));
}

#[test]
fn type_checker_levels_and_roles() {
    let ty = Type::new(TypeId(IId(1)), "T".to_string(), Level(1)).with_required_role(RoleId(5));
    let ok = Incidence::new(IId(2), Level(0)).add_arg(IId(3), RoleId(5));
    let missing = Incidence::new(IId(4), Level(0)).add_arg(IId(3), RoleId(6));
    let too_high = Incidence::new(IId(5), Level(2)).add_arg(IId(3), RoleId(5));
    assert!(TypeChecker::check_signature(&ok, &ty));
    assert!(!TypeChecker::check_signature(&missing, &ty));
    assert!(!TypeChecker::check_signature(&too_high, &ty));
}

#[test]
fn universe_next_level_and_witnesses() {
    let hierarchy = UniverseHierarchy::new();
    assert_eq!(hierarchy.next_level(), Level(1));
    let mut w = Witnesses::new();
    assert!(w.nno.is_none());
    w.set_nno(NnoWitness::new(NatDef::new(TypeId(IId(1)), IId(2), IId(3))));
    assert_eq!(w.nno.as_ref().unwrap().nno.zero, IId(2));
}

#[test]
fn bisimulation_reflexive_unless_nan() {
    let mut coalgebra = FinalCoalgebra::new();
    coalgebra.add_structure(IId(1), Structure::with_args(vec![IId(2)]));
    coalgebra.add_structure(IId(3), Structure::with_args(vec![IId(1), IId(3)]));
    coalgebra.add_structure(IId(4), Structure::with_val(Value::float(f64::NAN.to_bits())));
    coalgebra.add_structure(IId(5), Structure::with_args(vec![IId(4)]));
    let computer = BisimulationComputer::new(&coalgebra);
    let one = computer.compute_bisimulation(IId(1), IId(1));
    assert!(one.are_bisimilar);
    assert_eq!(one.relation, vec![(IId(1), IId(1)), (IId(2), IId(2))]);
    assert!(computer.compute_bisimulation(IId(3), IId(3)).are_bisimilar);
    assert!(computer.compute_bisimulation(IId(9), IId(9)).are_bisimilar);
    // A NaN equals nothing, itself included.
    assert!(!computer.compute_bisimulation(IId(4), IId(4)).are_bisimilar);
    assert!(!computer.compute_bisimulation(IId(5), IId(5)).are_bisimilar);
}

#[test]
fn bisimulation_follows_arguments() {
    let mut coalgebra = FinalCoalgebra::new();
    coalgebra.add_structure(IId(1), Structure::with_args(vec![IId(2)]));
    coalgebra.add_structure(IId(2), Structure::with_val(Value::integer(5)));
    coalgebra.add_structure(IId(3), Structure::with_args(vec![IId(4)]));
    coalgebra.add_structure(IId(4), Structure::with_val(Value::integer(5)));
    coalgebra.add_structure(IId(5), Structure::with_args(vec![IId(6)]));
    coalgebra.add_structure(IId(6), Structure::with_val(Value::integer(6)));
    // Zeros of either sign are equal values.
    coalgebra.add_structure(IId(7), Structure::with_val(Value::float(0.0f64.to_bits())));
    coalgebra.add_structure(IId(8), Structure::with_val(Value::float((-0.0f64).to_bits())));
    let computer = BisimulationComputer::new(&coalgebra);
    let r = computer.compute_bisimulation(IId(1), IId(3));
    assert!(r.are_bisimilar);
    assert_eq!(r.relation, vec![(IId(1), IId(3)), (IId(2), IId(4))]);
    assert!(!computer.compute_bisimulation(IId(1), IId(5)).are_bisimilar);
    assert!(computer.compute_bisimulation(IId(7), IId(8)).are_bisimilar);
}

#[test]
fn bisimulation_transitive_on_values() {
    let mut coalgebra = FinalCoalgebra::new();
    for i in 1..=3u64 {
        coalgebra.add_structure(IId(i), Structure::with_val(Value::string("same")));
    }
    let computer = BisimulationComputer::new(&coalgebra);
    assert!(computer.compute_bisimulation(IId(1), IId(2)).are_bisimilar);
    assert!(computer.compute_bisimulation(IId(2), IId(3)).are_bisimilar);
    assert!(computer.compute_bisimulation(IId(1), IId(3)).are_bisimilar);
}
