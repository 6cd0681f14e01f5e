use lilium::field::Fm;
use lilium::relation::{CompoundRelation, FoldingRelation, ProverOutput, Relation};
use lilium::spark::{FlexibleSparkRelation, FlexibleSparkStructure, SparkInstance};
use lilium::sumcheck::degree::{initial_degrees, Degree};
use lilium::sumcheck::oracles::EvalLocation;
use lilium::sumcheck::point::MultiPoint;
use std::rc::Rc;

type Flex = FlexibleSparkRelation<()>;

fn f(x: u64) -> Fm {
    Fm::from_u64(x)
}

fn structure() -> FlexibleSparkStructure<()> {
    FlexibleSparkStructure::new(Rc::new(vec![(1, f(5)), (2, f(7))]), ())
}

fn instance(index: usize, eval: u64) -> SparkInstance {
    SparkInstance::new(MultiPoint::new_from_index(index, 3), f(eval))
}

#[test]
fn relation_combinators() {
    let s = structure();
    assert!(Flex::check(&s, &instance(1, 5), &()));
    assert!(!Flex::check(&s, &instance(1, 6), &()));
    assert!(<() as Relation>::check(&(), &(), &()));

    assert!(CompoundRelation::<Flex, ()>::check(&(structure(), ()), &instance(2, 7), &()));
    assert!(!CompoundRelation::<Flex, ()>::check(&(structure(), ()), &instance(2, 5), &()));

    assert!(<(Flex, Flex) as Relation>::check(
        &(structure(), structure()),
        &(instance(1, 5), instance(2, 7)),
        &((), ())
    ));
    assert!(!<(Flex, Flex) as Relation>::check(
        &(structure(), structure()),
        &(instance(1, 5), instance(2, 8)),
        &((), ())
    ));

    assert!(FoldingRelation::<Flex>::check(&s, &[instance(1, 5), instance(3, 0)], &[(), ()]));
    assert!(!FoldingRelation::<Flex>::check(&s, &[instance(1, 5), instance(3, 1)], &[(), ()]));

    assert!(<[Flex; 2] as Relation>::check(
        &[structure(), structure()],
        &[instance(0, 0), instance(2, 7)],
        &[(), ()]
    ));
    assert!(!<[Flex; 2] as Relation>::check(
        &[structure(), structure()],
        &[instance(0, 1), instance(2, 7)],
        &[(), ()]
    ));
}

#[test]
fn prover_output_maps() {
    let out: ProverOutput<(), u8> = ProverOutput { instance: (), witness: (), proof: 3 };
    let mapped = out.map_proof(|p| p as u32 + 1);
    assert_eq!(mapped.proof, 4);
    let back: ProverOutput<(), u32> = mapped.map_rel::<(), _, _>(|i| i, |w| w);
    assert_eq!(back.proof, 4);
    let a: ProverOutput<(), u8> = ProverOutput { instance: (), witness: (), proof: 1 };
    let b: ProverOutput<(), u8> = ProverOutput { instance: (), witness: (), proof: 2 };
    let both = ProverOutput::<((), ()), (u8, u8)>::combine_tuple(a, b);
    assert_eq!(both.proof, (1, 2));
}

#[test]
fn degrees_by_location() {
    let d = initial_degrees(&[EvalLocation::Structure, EvalLocation::Instance, EvalLocation::Witness]);
    assert_eq!(d, vec![Degree(1), Degree(0), Degree(1)]);
    assert_eq!(Degree(2).mul(&Degree(3)), Degree(5));
    assert_eq!(Degree(2).add(&Degree(3)), Degree(3));
}
