//! Launch-module fuel arithmetic: fuel for a mass is a third of it, rounded
//! down, less two; total fuel also fuels the fuel itself, until the
//! requirement vanishes.

use vstd::prelude::*;

use crate::text::{chars_dec_val, is_unsigned_dec_chars, parse_u64_chars};

verus! {

/// Fuel for one mass: a third rounded down, less two; masses too light to
/// need fuel (a third of them is at most two) need none at all.
pub open spec fn spec_required_fuel(mass: nat) -> Option<nat> {
    if mass / 3 <= 2 {
        None
    } else {
        Some((mass / 3 - 2) as nat)
    }
}

/// Fuel for a mass plus fuel for that fuel, and so on until nothing more
/// is needed.
pub open spec fn spec_total_fuel(mass: nat) -> nat
    decreases mass,
{
    match spec_required_fuel(mass) {
        None => 0,
        Some(f) => f + spec_total_fuel(f),
    }
}

/// Total fuel never exceeds the mass itself.
pub proof fn lemma_total_fuel_le_mass(mass: nat)
    ensures
        spec_total_fuel(mass) <= mass,
    decreases mass,
{
    match spec_required_fuel(mass) {
        None => {},
        Some(f) => {
            lemma_total_fuel_le_mass(f);
        },
    }
}

pub struct FuelCalculator {}

impl FuelCalculator {
    /// Fuel for one mass, or `None` for a mass too light to need any.
    pub fn required_fuel(mass: u64) -> (r: Option<u64>)
        ensures
            r == (match spec_required_fuel(mass as nat) {
                None => None::<u64>,
                Some(f) => Some(f as u64),
            }),
    {
        let third = mass / 3;
        if third <= 2 {
            None
        } else {
            Some(third - 2)
        }
    }
}

/// Anything with a mass whose fuel needs can be summed up.
pub trait Fuelable {
    /// The mass this item contributes.
    spec fn spec_mass(&self) -> nat;

    /// Fuel for the item's own mass; callers must know the item is heavy
    /// enough to need fuel at all.
    fn calculate_base_required_fuel(&self) -> (r: u64)
        requires
            spec_required_fuel(self.spec_mass()) is Some,
        ensures
            Some(r as nat) == spec_required_fuel(self.spec_mass()),
    ;

    /// Fuel for the item's mass, plus fuel for that fuel, and so on.
    fn calculate_total_required_fuel(&self) -> (r: u64)
        ensures
            r as nat == spec_total_fuel(self.spec_mass()),
    ;
}

/// One launch module, known by its mass.
pub struct Module {
    mass: u64,
}

impl Module {
    pub fn new(mass: u64) -> (r: Module)
        ensures
            r.spec_mass() == mass as nat,
    {
        Module { mass }
    }
}

impl Fuelable for Module {
    closed spec fn spec_mass(&self) -> nat {
        self.mass as nat
    }

    fn calculate_base_required_fuel(&self) -> (r: u64) {
        match FuelCalculator::required_fuel(self.mass) {
            Some(f) => f,
            None => {
                proof {
                    assert(false);
                }
                0
            },
        }
    }

    fn calculate_total_required_fuel(&self) -> (r: u64) {
        let mut total: u64 = 0;
        let mut current: u64 = self.mass;
        proof {
            lemma_total_fuel_le_mass(self.mass as nat);
        }
        loop
            invariant
                total + spec_total_fuel(current as nat) == spec_total_fuel(self.mass as nat),
                spec_total_fuel(self.mass as nat) <= u64::MAX,
            decreases current,
        {
            match FuelCalculator::required_fuel(current) {
                None => {
                    return total;
                },
                Some(f) => {
                    proof {
                        lemma_total_fuel_le_mass(f as nat);
                    }
                    total = total + f;
                    current = f;
                },
            }
        }
    }
}

/// The sum of the base fuel of a sequence of items.
pub open spec fn sum_base_fuel<F: Fuelable>(s: Seq<F>) -> nat
    decreases s.len(),
{
    if s.len() == 0 {
        0
    } else {
        sum_base_fuel(s.drop_last()) + (match spec_required_fuel(s.last().spec_mass()) {
            None => 0,
            Some(f) => f,
        })
    }
}

/// The sum of the total fuel of a sequence of items.
pub open spec fn sum_total_fuel<F: Fuelable>(s: Seq<F>) -> nat
    decreases s.len(),
{
    if s.len() == 0 {
        0
    } else {
        sum_total_fuel(s.drop_last()) + spec_total_fuel(s.last().spec_mass())
    }
}

pub struct FuelUpper {}

impl FuelUpper {
    /// Sums base fuel over the items; each must be heavy enough to need
    /// fuel, and the grand total must fit the machine word.
    pub fn determine_total_required_base_fuel<F: Fuelable>(fuelables: &[F]) -> (r: u64)
        requires
            forall|i: int|
                0 <= i < fuelables@.len() ==> spec_required_fuel(
                    #[trigger] fuelables@[i].spec_mass(),
                ) is Some,
            sum_base_fuel(fuelables@) <= u64::MAX,
        ensures
            r as nat == sum_base_fuel(fuelables@),
    {
        let mut acc: u64 = 0;
        let mut i: usize = 0;
        proof {
            assert(fuelables@.take(0) =~= Seq::<F>::empty());
        }
        while i < fuelables.len()
            invariant
                i <= fuelables@.len(),
                forall|j: int|
                    0 <= j < fuelables@.len() ==> spec_required_fuel(
                        #[trigger] fuelables@[j].spec_mass(),
                    ) is Some,
                sum_base_fuel(fuelables@) <= u64::MAX,
                acc as nat == sum_base_fuel(fuelables@.take(i as int)),
            decreases fuelables@.len() - i,
        {
            proof {
                assert(fuelables@.take(i + 1).drop_last() =~= fuelables@.take(i as int));
                assert(fuelables@.take(i + 1).last() == fuelables@[i as int]);
                lemma_sum_base_prefix(fuelables@, i + 1);
            }
            let f = fuelables[i].calculate_base_required_fuel();
            acc = acc + f;
            i = i + 1;
        }
        proof {
            assert(fuelables@.take(fuelables@.len() as int) =~= fuelables@);
        }
        acc
    }

    /// Sums total fuel over the items; the grand total must fit the
    /// machine word.
    pub fn determine_total_required_fuel<F: Fuelable>(fuelables: &[F]) -> (r: u64)
        requires
            sum_total_fuel(fuelables@) <= u64::MAX,
        ensures
            r as nat == sum_total_fuel(fuelables@),
    {
        let mut acc: u64 = 0;
        let mut i: usize = 0;
        proof {
            assert(fuelables@.take(0) =~= Seq::<F>::empty());
        }
        while i < fuelables.len()
            invariant
                i <= fuelables@.len(),
                sum_total_fuel(fuelables@) <= u64::MAX,
                acc as nat == sum_total_fuel(fuelables@.take(i as int)),
            decreases fuelables@.len() - i,
        {
            proof {
                assert(fuelables@.take(i + 1).drop_last() =~= fuelables@.take(i as int));
                assert(fuelables@.take(i + 1).last() == fuelables@[i as int]);
                lemma_sum_total_prefix(fuelables@, i + 1);
            }
            let f = fuelables[i].calculate_total_required_fuel();
            acc = acc + f;
            i = i + 1;
        }
        proof {
            assert(fuelables@.take(fuelables@.len() as int) =~= fuelables@);
        }
        acc
    }
}

/// A prefix's base-fuel sum never exceeds the whole sum.
proof fn lemma_sum_base_prefix<F: Fuelable>(s: Seq<F>, i: int)
    requires
        0 <= i <= s.len(),
    ensures
        sum_base_fuel(s.take(i)) <= sum_base_fuel(s),
    decreases s.len(),
{
    if i == s.len() {
        assert(s.take(i) =~= s);
    } else {
        lemma_sum_base_prefix(s.drop_last(), i);
        assert(s.drop_last().take(i) =~= s.take(i));
    }
}

/// A prefix's total-fuel sum never exceeds the whole sum.
proof fn lemma_sum_total_prefix<F: Fuelable>(s: Seq<F>, i: int)
    requires
        0 <= i <= s.len(),
    ensures
        sum_total_fuel(s.take(i)) <= sum_total_fuel(s),
    decreases s.len(),
{
    if i == s.len() {
        assert(s.take(i) =~= s);
    } else {
        lemma_sum_total_prefix(s.drop_last(), i);
        assert(s.drop_last().take(i) =~= s.take(i));
    }
}

/// Wraps each input line, read as an unsigned decimal mass, in a module.
/// Every line must be a well-formed number that fits the machine word.
pub fn input_to_modules(inputs: Vec<String>) -> (r: Vec<Module>)
    requires
        forall|i: int|
            0 <= i < inputs@.len() ==> is_unsigned_dec_chars(#[trigger] inputs@[i]@)
                && chars_dec_val(inputs@[i]@) <= u64::MAX,
    ensures
        r@.len() == inputs@.len(),
        forall|i: int|
            0 <= i < r@.len() ==> #[trigger] r@[i].spec_mass() == chars_dec_val(inputs@[i]@),
{
    let mut r: Vec<Module> = Vec::new();
    let mut i: usize = 0;
    while i < inputs.len()
        invariant
            i <= inputs@.len(),
            forall|j: int|
                0 <= j < inputs@.len() ==> is_unsigned_dec_chars(#[trigger] inputs@[j]@)
                    && chars_dec_val(inputs@[j]@) <= u64::MAX,
            r@.len() == i,
            forall|j: int|
                0 <= j < r@.len() ==> #[trigger] r@[j].spec_mass() == chars_dec_val(inputs@[j]@),
        decreases inputs@.len() - i,
    {
        let v = parse_u64_chars(inputs[i].as_str());
        r.push(Module::new(v));
        i = i + 1;
    }
    r
}

} // verus!
