//! Relations between a structure, an instance and a witness, and the ways
//! they combine.
use vstd::prelude::*;

verus! {

/// A relation between a structure, an instance and a witness.
pub trait Relation {
    type Structure;
    type Instance;
    type Witness;

    /// The inputs `check` is defined on.
    spec fn admits(structure: Self::Structure, instance: Self::Instance, witness: Self::Witness) -> bool;

    /// The relation itself.
    spec fn holds(structure: Self::Structure, instance: Self::Instance, witness: Self::Witness) -> bool;

    /// Whether the relation holds.
    fn check(structure: &Self::Structure, instance: &Self::Instance, witness: &Self::Witness) -> (r:
        bool)
        requires
            Self::admits(*structure, *instance, *witness),
        ensures
            r == Self::holds(*structure, *instance, *witness),
    ;
}

/// The unit relation, which always holds.
impl Relation for () {
    type Structure = ();

    type Instance = ();

    type Witness = ();

    open spec fn admits(structure: (), instance: (), witness: ()) -> bool {
        true
    }

    open spec fn holds(structure: (), instance: (), witness: ()) -> bool {
        true
    }

    fn check(structure: &(), instance: &(), witness: &()) -> (r: bool) {
        true
    }
}

/// The relation `R1` with the structures of both `R1` and `R2`.
pub struct CompoundRelation<R1, R2>(R1, R2);

impl<R1: Relation, R2: Relation> Relation for CompoundRelation<R1, R2> {
    type Structure = (R1::Structure, R2::Structure);

    type Instance = R1::Instance;

    type Witness = R1::Witness;

    open spec fn admits(
        structure: (R1::Structure, R2::Structure),
        instance: R1::Instance,
        witness: R1::Witness,
    ) -> bool {
        R1::admits(structure.0, instance, witness)
    }

    open spec fn holds(
        structure: (R1::Structure, R2::Structure),
        instance: R1::Instance,
        witness: R1::Witness,
    ) -> bool {
        R1::holds(structure.0, instance, witness)
    }

    fn check(
        structure: &(R1::Structure, R2::Structure),
        instance: &R1::Instance,
        witness: &R1::Witness,
    ) -> (r: bool) {
        R1::check(&structure.0, instance, witness)
    }
}

/// Both relations, each on its part of the structure, instance and witness.
impl<R1: Relation, R2: Relation> Relation for (R1, R2) {
    type Structure = (R1::Structure, R2::Structure);

    type Instance = (R1::Instance, R2::Instance);

    type Witness = (R1::Witness, R2::Witness);

    open spec fn admits(
        structure: (R1::Structure, R2::Structure),
        instance: (R1::Instance, R2::Instance),
        witness: (R1::Witness, R2::Witness),
    ) -> bool {
        &&& R1::admits(structure.0, instance.0, witness.0)
        &&& R1::holds(structure.0, instance.0, witness.0) ==> R2::admits(
            structure.1,
            instance.1,
            witness.1,
        )
    }

    open spec fn holds(
        structure: (R1::Structure, R2::Structure),
        instance: (R1::Instance, R2::Instance),
        witness: (R1::Witness, R2::Witness),
    ) -> bool {
        R1::holds(structure.0, instance.0, witness.0) && R2::holds(
            structure.1,
            instance.1,
            witness.1,
        )
    }

    fn check(
        structure: &(R1::Structure, R2::Structure),
        instance: &(R1::Instance, R2::Instance),
        witness: &(R1::Witness, R2::Witness),
    ) -> (r: bool) {
        R1::check(&structure.0, &instance.0, &witness.0) && R2::check(
            &structure.1,
            &instance.1,
            &witness.1,
        )
    }
}

/// Two instances of a relation, with their witnesses, under one structure:
/// what a folding scheme reduces to one.
#[derive(Clone, Copy, Debug)]
pub struct FoldingRelation<R>(R);

impl<R: Relation> Relation for FoldingRelation<R> {
    type Structure = R::Structure;

    type Instance = [R::Instance; 2];

    type Witness = [R::Witness; 2];

    open spec fn admits(
        structure: R::Structure,
        instance: [R::Instance; 2],
        witness: [R::Witness; 2],
    ) -> bool {
        &&& R::admits(structure, instance@[0], witness@[0])
        &&& R::holds(structure, instance@[0], witness@[0]) ==> R::admits(
            structure,
            instance@[1],
            witness@[1],
        )
    }

    open spec fn holds(
        structure: R::Structure,
        instance: [R::Instance; 2],
        witness: [R::Witness; 2],
    ) -> bool {
        R::holds(structure, instance@[0], witness@[0]) && R::holds(
            structure,
            instance@[1],
            witness@[1],
        )
    }

    fn check(structure: &R::Structure, instance: &[R::Instance; 2], witness: &[R::Witness; 2]) -> (r:
        bool) {
        R::check(structure, &instance[0], &witness[0]) && R::check(
            structure,
            &instance[1],
            &witness[1],
        )
    }
}

/// The relation `R` on each of `N` structures, instances and witnesses.
impl<R: Relation, const N: usize> Relation for [R; N] {
    type Structure = [R::Structure; N];

    type Instance = [R::Instance; N];

    type Witness = [R::Witness; N];

    open spec fn admits(
        structure: [R::Structure; N],
        instance: [R::Instance; N],
        witness: [R::Witness; N],
    ) -> bool {
        forall|k: int|
            0 <= k < N ==> (forall|j: int|
                0 <= j < k ==> R::holds(structure@[j], instance@[j], witness@[j])) ==> R::admits(
                #[trigger] structure@[k],
                instance@[k],
                witness@[k],
            )
    }

    open spec fn holds(
        structure: [R::Structure; N],
        instance: [R::Instance; N],
        witness: [R::Witness; N],
    ) -> bool {
        forall|k: int| 0 <= k < N ==> R::holds(#[trigger] structure@[k], instance@[k], witness@[k])
    }

    fn check(structure: &[R::Structure; N], instance: &[R::Instance; N], witness: &[R::Witness; N]) -> (r:
        bool) {
        let mut k: usize = 0;
        while k < N
            invariant
                k <= N,
                Self::admits(*structure, *instance, *witness),
                forall|j: int| 0 <= j < k ==> R::holds(#[trigger] structure@[j], instance@[j], witness@[j]),
            decreases N - k,
        {
            if !R::check(&structure[k], &instance[k], &witness[k]) {
                return false;
            }
            k = k + 1;
        }
        true
    }
}

/// What a prover outputs: the reduced instance and witness, and the proof.
pub struct ProverOutput<R: Relation, P> {
    pub instance: R::Instance,
    pub witness: R::Witness,
    pub proof: P,
}

impl<R1: Relation, R2: Relation, P> ProverOutput<(R1, R2), (P, P)> {
    /// The outputs of two provers, side by side.
    pub fn combine_tuple(a: ProverOutput<R1, P>, b: ProverOutput<R2, P>) -> (r: Self)
        ensures
            r.instance == (a.instance, b.instance),
            r.witness == (a.witness, b.witness),
            r.proof == (a.proof, b.proof),
    {
        ProverOutput {
            instance: (a.instance, b.instance),
            witness: (a.witness, b.witness),
            proof: (a.proof, b.proof),
        }
    }
}

impl<R: Relation, P> ProverOutput<R, P> {
    /// The output with its instance and witness mapped to another relation.
    pub fn map_rel<R2: Relation, F1, F2>(self, f1: F1, f2: F2) -> (r: ProverOutput<R2, P>) where
        F1: FnOnce(R::Instance) -> R2::Instance,
        F2: FnOnce(R::Witness) -> R2::Witness,

        requires
            f1.requires((self.instance,)),
            f2.requires((self.witness,)),
        ensures
            f1.ensures((self.instance,), r.instance),
            f2.ensures((self.witness,), r.witness),
            r.proof == self.proof,
    {
        let ProverOutput { instance, witness, proof } = self;
        let instance = f1(instance);
        let witness = f2(witness);
        ProverOutput { instance, witness, proof }
    }

    /// The output with its proof mapped.
    pub fn map_proof<P2, F: FnOnce(P) -> P2>(self, f: F) -> (r: ProverOutput<R, P2>)
        requires
            f.requires((self.proof,)),
        ensures
            f.ensures((self.proof,), r.proof),
            r.instance == self.instance,
            r.witness == self.witness,
    {
        let ProverOutput { instance, witness, proof } = self;
        let proof = f(proof);
        ProverOutput { instance, witness, proof }
    }
}

} // verus!
