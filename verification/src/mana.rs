//! Mana pools, mana costs, explicit payment validation and bounded payment
//! enumeration, including source-level auto-tap planning.

use vstd::prelude::*;

use crate::ids::ObjectId;

verus! {

/// Maximum number of payment plans returned by the payment enumerators.
pub const PAYMENT_PLAN_LIMIT: usize = 64;

/// A kind of mana that can exist in a player's mana pool.
#[derive(Clone, Copy, Debug, PartialEq, Eq, Structural, Hash, PartialOrd, Ord)]
pub enum ManaKind {
    /// White mana.
    White,
    /// Blue mana.
    Blue,
    /// Black mana.
    Black,
    /// Red mana.
    Red,
    /// Green mana.
    Green,
    /// Colorless mana.
    Colorless,
}

impl ManaKind {
    /// The pool slot of this kind, in WUBRG-then-colorless order.
    pub open spec fn slot(self) -> int {
        match self {
            ManaKind::White => 0,
            ManaKind::Blue => 1,
            ManaKind::Black => 2,
            ManaKind::Red => 3,
            ManaKind::Green => 4,
            ManaKind::Colorless => 5,
        }
    }

    /// Returns the pool slot of this kind.
    pub fn index(self) -> (r: usize)
        ensures
            r == self.slot(),
    {
        match self {
            ManaKind::White => 0,
            ManaKind::Blue => 1,
            ManaKind::Black => 2,
            ManaKind::Red => 3,
            ManaKind::Green => 4,
            ManaKind::Colorless => 5,
        }
    }
}

/// The colored kind stored in colored slot `i` (WUBRG order).
pub fn colored_kind(i: usize) -> (k: ManaKind)
    requires
        i < 5,
    ensures
        k.slot() == i,
        k != ManaKind::Colorless,
{
    if i == 0 {
        ManaKind::White
    } else if i == 1 {
        ManaKind::Blue
    } else if i == 2 {
        ManaKind::Black
    } else if i == 3 {
        ManaKind::Red
    } else {
        ManaKind::Green
    }
}

/// Mana currently available or selected for payment.
#[derive(Clone, Copy, Debug, PartialEq, Eq, Structural, Hash)]
pub struct ManaPool {
    pub white: u32,
    pub blue: u32,
    pub black: u32,
    pub red: u32,
    pub green: u32,
    pub colorless: u32,
}

impl ManaPool {
    /// Amount stored in slot `k` (0..6); other slots read as zero.
    pub open spec fn amt(self, k: int) -> int {
        if k == 0 {
            self.white as int
        } else if k == 1 {
            self.blue as int
        } else if k == 2 {
            self.black as int
        } else if k == 3 {
            self.red as int
        } else if k == 4 {
            self.green as int
        } else if k == 5 {
            self.colorless as int
        } else {
            0
        }
    }

    /// Exact sum of the five colored slots.
    pub open spec fn sum_colored(self) -> int {
        self.white + self.blue + self.black + self.red + self.green
    }

    /// Exact sum of all six slots.
    pub open spec fn sum_all(self) -> int {
        self.sum_colored() + self.colorless
    }

    /// Every slot of `self` is at least the matching slot of `req`.
    pub open spec fn covers(self, req: ManaPool) -> bool {
        forall|k: int| 0 <= k < 6 ==> self.amt(k) >= req.amt(k)
    }

    /// Every slot of `self` is the sum of the matching slots of `a` and `b`.
    pub open spec fn is_sum_of(self, a: ManaPool, b: ManaPool) -> bool {
        forall|k: int| 0 <= k < 6 ==> self.amt(k) == a.amt(k) + b.amt(k)
    }

    /// Every slot of `self` is the difference of the matching slots of `a` and `b`.
    pub open spec fn is_diff_of(self, a: ManaPool, b: ManaPool) -> bool {
        forall|k: int| 0 <= k < 6 ==> self.amt(k) == a.amt(k) - b.amt(k)
    }

    /// The pool with every slot zero.
    pub open spec fn zero() -> ManaPool {
        ManaPool { white: 0, blue: 0, black: 0, red: 0, green: 0, colorless: 0 }
    }


    /// Reading `covers` slot by slot.
    pub proof fn lemma_covers_fields(a: ManaPool, b: ManaPool)
        requires
            a.covers(b),
        ensures
            a.white >= b.white && a.blue >= b.blue && a.black >= b.black,
            a.red >= b.red && a.green >= b.green && a.colorless >= b.colorless,
    {
        assert(a.amt(0) >= b.amt(0));
        assert(a.amt(1) >= b.amt(1));
        assert(a.amt(2) >= b.amt(2));
        assert(a.amt(3) >= b.amt(3));
        assert(a.amt(4) >= b.amt(4));
        assert(a.amt(5) >= b.amt(5));
    }

    /// Reading `is_diff_of` slot by slot, and its effect on totals.
    pub proof fn lemma_diff_fields(p: ManaPool, a: ManaPool, b: ManaPool)
        requires
            p.is_diff_of(a, b),
        ensures
            p.white == a.white - b.white && p.blue == a.blue - b.blue,
            p.black == a.black - b.black && p.red == a.red - b.red,
            p.green == a.green - b.green && p.colorless == a.colorless - b.colorless,
            p.sum_all() == a.sum_all() - b.sum_all(),
            p.sum_colored() == a.sum_colored() - b.sum_colored(),
    {
        assert(p.amt(0) == a.amt(0) - b.amt(0));
        assert(p.amt(1) == a.amt(1) - b.amt(1));
        assert(p.amt(2) == a.amt(2) - b.amt(2));
        assert(p.amt(3) == a.amt(3) - b.amt(3));
        assert(p.amt(4) == a.amt(4) - b.amt(4));
        assert(p.amt(5) == a.amt(5) - b.amt(5));
    }

    /// Reading `is_sum_of` slot by slot, and its effect on totals.
    pub proof fn lemma_sum_fields(p: ManaPool, a: ManaPool, b: ManaPool)
        requires
            p.is_sum_of(a, b),
        ensures
            p.white == a.white + b.white && p.blue == a.blue + b.blue,
            p.black == a.black + b.black && p.red == a.red + b.red,
            p.green == a.green + b.green && p.colorless == a.colorless + b.colorless,
            p.sum_all() == a.sum_all() + b.sum_all(),
            p.sum_colored() == a.sum_colored() + b.sum_colored(),
    {
        assert(p.amt(0) == a.amt(0) + b.amt(0));
        assert(p.amt(1) == a.amt(1) + b.amt(1));
        assert(p.amt(2) == a.amt(2) + b.amt(2));
        assert(p.amt(3) == a.amt(3) + b.amt(3));
        assert(p.amt(4) == a.amt(4) + b.amt(4));
        assert(p.amt(5) == a.amt(5) + b.amt(5));
    }

    /// Creates an empty mana pool.
    pub fn empty() -> (r: Self)
        ensures
            r == ManaPool::zero(),
    {
        ManaPool { white: 0, blue: 0, black: 0, red: 0, green: 0, colorless: 0 }
    }

    /// Creates a mana pool from WUBRG and colorless amounts.
    pub fn new(white: u32, blue: u32, black: u32, red: u32, green: u32, colorless: u32) -> (r:
        Self)
        ensures
            r.white == white && r.blue == blue && r.black == black,
            r.red == red && r.green == green && r.colorless == colorless,
    {
        ManaPool { white, blue, black, red, green, colorless }
    }

    /// Creates a pool containing one kind of mana.
    pub fn of(kind: ManaKind, amount: u32) -> (r: Self)
        ensures
            forall|k: int|
                0 <= k < 6 ==> r.amt(k) == (if k == kind.slot() {
                    amount as int
                } else {
                    0
                }),
    {
        let pool = Self::empty();
        pool.with_slot(kind.index(), amount)
    }

    /// Returns this pool with slot `k` replaced by `amount`.
    pub(crate) fn with_slot(self, k: usize, amount: u32) -> (r: Self)
        requires
            k < 6,
        ensures
            forall|j: int|
                0 <= j < 6 ==> r.amt(j) == (if j == k {
                    amount as int
                } else {
                    self.amt(j)
                }),
            k < 5 ==> r.sum_colored() == self.sum_colored() - self.amt(k as int) + amount,
            k < 5 ==> r.colorless == self.colorless,
            k == 5 ==> r.sum_colored() == self.sum_colored() && r.colorless == amount,
            r == set_slot(self, k as int, amount),
    {
        let mut r = self;
        if k == 0 {
            r.white = amount;
        } else if k == 1 {
            r.blue = amount;
        } else if k == 2 {
            r.black = amount;
        } else if k == 3 {
            r.red = amount;
        } else if k == 4 {
            r.green = amount;
        } else {
            r.colorless = amount;
        }
        r
    }

    /// Returns the amount stored in slot `k`.
    pub(crate) fn slot_amount(self, k: usize) -> (r: u32)
        requires
            k < 6,
        ensures
            r == self.amt(k as int),
    {
        if k == 0 {
            self.white
        } else if k == 1 {
            self.blue
        } else if k == 2 {
            self.black
        } else if k == 3 {
            self.red
        } else if k == 4 {
            self.green
        } else {
            self.colorless
        }
    }

    /// Returns the amount of one kind of mana in this pool.
    pub fn get(self, kind: ManaKind) -> (r: u32)
        ensures
            r == self.amt(kind.slot()),
    {
        self.slot_amount(kind.index())
    }

    /// Returns the exact total of all mana, widened so that it cannot overflow.
    pub(crate) fn total_wide(self) -> (r: u64)
        ensures
            r == self.sum_all(),
    {
        self.white as u64 + self.blue as u64 + self.black as u64 + self.red as u64
            + self.green as u64 + self.colorless as u64
    }

    /// Returns the exact total of colored mana, widened so that it cannot overflow.
    pub(crate) fn colored_total_wide(self) -> (r: u64)
        ensures
            r == self.sum_colored(),
    {
        self.white as u64 + self.blue as u64 + self.black as u64 + self.red as u64
            + self.green as u64
    }

    /// Returns the total mana in this pool.
    pub fn total(self) -> (r: u32)
        requires
            self.sum_all() <= u32::MAX,
        ensures
            r == self.sum_all(),
    {
        self.total_wide() as u32
    }

    /// Returns the total colored mana in this pool.
    pub fn colored_total(self) -> (r: u32)
        requires
            self.sum_colored() <= u32::MAX,
        ensures
            r == self.sum_colored(),
    {
        self.colored_total_wide() as u32
    }

    /// Returns true when this pool has at least every amount in `required`.
    pub fn contains_at_least(self, required: Self) -> (r: bool)
        ensures
            r == self.covers(required),
    {
        let r = self.white >= required.white && self.blue >= required.blue && self.black
            >= required.black && self.red >= required.red && self.green >= required.green
            && self.colorless >= required.colorless;
        proof {
            if !r {
                if self.white < required.white {
                    assert(self.amt(0) < required.amt(0));
                } else if self.blue < required.blue {
                    assert(self.amt(1) < required.amt(1));
                } else if self.black < required.black {
                    assert(self.amt(2) < required.amt(2));
                } else if self.red < required.red {
                    assert(self.amt(3) < required.amt(3));
                } else if self.green < required.green {
                    assert(self.amt(4) < required.amt(4));
                } else {
                    assert(self.amt(5) < required.amt(5));
                }
            }
        }
        r
    }

    /// Pays a validated payment plan from this pool.
    pub fn pay(self, plan: PaymentPlan) -> (r: Result<Self, PaymentError>)
        ensures
            self.covers(plan.paid()) ==> (r matches Ok(p) && p.is_diff_of(self, plan.paid())),
            !self.covers(plan.paid()) ==> r == Err::<ManaPool, PaymentError>(
                PaymentError::InsufficientMana,
            ),
    {
        match self.checked_sub(plan.paid()) {
            Some(p) => Ok(p),
            None => Err(PaymentError::InsufficientMana),
        }
    }

    /// Adds two pools slot by slot, or returns `None` if any slot overflows.
    pub(crate) fn checked_add(self, other: Self) -> (r: Option<Self>)
        ensures
            r matches Some(p) ==> p.is_sum_of(self, other),
            r is None ==> exists|k: int|
                0 <= k < 6 && #[trigger] self.amt(k) + other.amt(k) > u32::MAX,
    {
        let white = match self.white.checked_add(other.white) {
            Some(v) => v,
            None => {
                assert(self.amt(0) + other.amt(0) > u32::MAX);
                return None;
            },
        };
        let blue = match self.blue.checked_add(other.blue) {
            Some(v) => v,
            None => {
                assert(self.amt(1) + other.amt(1) > u32::MAX);
                return None;
            },
        };
        let black = match self.black.checked_add(other.black) {
            Some(v) => v,
            None => {
                assert(self.amt(2) + other.amt(2) > u32::MAX);
                return None;
            },
        };
        let red = match self.red.checked_add(other.red) {
            Some(v) => v,
            None => {
                assert(self.amt(3) + other.amt(3) > u32::MAX);
                return None;
            },
        };
        let green = match self.green.checked_add(other.green) {
            Some(v) => v,
            None => {
                assert(self.amt(4) + other.amt(4) > u32::MAX);
                return None;
            },
        };
        let colorless = match self.colorless.checked_add(other.colorless) {
            Some(v) => v,
            None => {
                assert(self.amt(5) + other.amt(5) > u32::MAX);
                return None;
            },
        };
        Some(ManaPool { white, blue, black, red, green, colorless })
    }

    /// Subtracts two pools slot by slot, or returns `None` if any slot would go negative.
    pub(crate) fn checked_sub(self, other: Self) -> (r: Option<Self>)
        ensures
            r matches Some(p) ==> p.is_diff_of(self, other) && self.covers(other),
            r is None <==> !self.covers(other),
    {
        if !self.contains_at_least(other) {
            return None;
        }
        proof {
            ManaPool::lemma_covers_fields(self, other);
        }
        Some(
            ManaPool {
                white: self.white - other.white,
                blue: self.blue - other.blue,
                black: self.black - other.black,
                red: self.red - other.red,
                green: self.green - other.green,
                colorless: self.colorless - other.colorless,
            },
        )
    }
}

/// A resolved mana cost: colored requirements plus generic and optional X.
#[derive(Clone, Copy, Debug, PartialEq, Eq, Structural, Hash)]
pub struct ManaCost {
    pub white: u32,
    pub blue: u32,
    pub black: u32,
    pub red: u32,
    pub green: u32,
    pub generic: u32,
    pub x_count: u32,
    pub x_value: u32,
}

/// The colored requirement of `cost` as a pool with no colorless mana.
pub open spec fn colored_requirement(cost: ManaCost) -> ManaPool {
    ManaPool {
        white: cost.white,
        blue: cost.blue,
        black: cost.black,
        red: cost.red,
        green: cost.green,
        colorless: 0,
    }
}

/// The exact generic amount of `cost` after adding every X symbol.
pub open spec fn generic_requirement(cost: ManaCost) -> int {
    cost.generic + cost.x_count * cost.x_value
}

impl ManaCost {
    /// Creates a mana cost from WUBRG colored pips and a generic amount.
    pub fn new(white: u32, blue: u32, black: u32, red: u32, green: u32, generic: u32) -> (r:
        Self)
        ensures
            r.white == white && r.blue == blue && r.black == black && r.red == red,
            r.green == green && r.generic == generic && r.x_count == 0 && r.x_value == 0,
    {
        ManaCost { white, blue, black, red, green, generic, x_count: 0, x_value: 0 }
    }

    /// Returns this cost with `x_count` X symbols set to the chosen value.
    pub fn with_x(self, x_count: u32, x_value: u32) -> (r: Self)
        ensures
            r == (ManaCost { x_count, x_value, ..self }),
    {
        let mut r = self;
        r.x_count = x_count;
        r.x_value = x_value;
        r
    }

    /// Returns the colored pips of one mana kind.
    pub fn colored(self, kind: ManaKind) -> (r: u32)
        ensures
            r == colored_requirement(self).amt(kind.slot()),
    {
        match kind {
            ManaKind::White => self.white,
            ManaKind::Blue => self.blue,
            ManaKind::Black => self.black,
            ManaKind::Red => self.red,
            ManaKind::Green => self.green,
            ManaKind::Colorless => 0,
        }
    }

    /// Returns the printed generic component before X is added.
    pub fn base_generic(self) -> (r: u32)
        ensures
            r == self.generic,
    {
        self.generic
    }

    /// Returns how many X symbols this cost contains.
    pub fn x_count(self) -> (r: u32)
        ensures
            r == self.x_count,
    {
        self.x_count
    }

    /// Returns the chosen value of X.
    pub fn x_value(self) -> (r: u32)
        ensures
            r == self.x_value,
    {
        self.x_value
    }

    /// Returns colored requirements as a mana pool.
    pub fn colored_pool(self) -> (r: ManaPool)
        ensures
            r == colored_requirement(self),
    {
        ManaPool::new(self.white, self.blue, self.black, self.red, self.green, 0)
    }

    /// Returns the total generic amount after adding X.
    pub fn generic_total(self) -> (r: Result<u32, PaymentError>)
        ensures
            generic_requirement(self) <= u32::MAX ==> r == Ok::<u32, PaymentError>(
                generic_requirement(self) as u32,
            ),
            generic_requirement(self) > u32::MAX ==> r == Err::<u32, PaymentError>(
                PaymentError::ManaValueOverflow,
            ),
    {
        proof {
            assert(self.x_count * self.x_value >= 0) by (nonlinear_arith);
        }
        let x_total = match self.x_count.checked_mul(self.x_value) {
            Some(v) => v,
            None => return Err(PaymentError::ManaValueOverflow),
        };
        match self.generic.checked_add(x_total) {
            Some(v) => Ok(v),
            None => Err(PaymentError::ManaValueOverflow),
        }
    }
}

/// A validated choice of mana used to pay a cost.
///
/// Plans are made only by the validating and enumerating functions of this
/// module; callers read them through the accessors.
#[derive(Clone, Copy, Debug, PartialEq, Eq, Structural, Hash)]
pub struct PaymentPlan {
    pub(crate) paid: ManaPool,
    pub(crate) generic_paid: ManaPool,
    pub(crate) generic_required: u32,
    pub(crate) x_value: u32,
    pub(crate) waste_score: u32,
}

/// `plan` is a correct payment of `cost` out of `available`: it pays every
/// colored pip exactly, pays exactly the generic amount (X included) with the
/// rest, fits in `available`, and records the colored mana spent on generic
/// costs as its waste score.
pub open spec fn is_valid_payment(available: ManaPool, cost: ManaCost, plan: PaymentPlan) -> bool {
    &&& plan.paid().is_sum_of(colored_requirement(cost), plan.generic_paid())
    &&& available.covers(plan.paid())
    &&& plan.generic_paid().sum_all() == generic_requirement(cost)
    &&& plan.generic_required() == generic_requirement(cost)
    &&& plan.x_value() == cost.x_value
    &&& plan.waste_score() == plan.generic_paid().sum_colored()
}

impl PaymentPlan {
    /// All mana consumed by the plan.
    pub open(crate) spec fn spec_paid(self) -> ManaPool {
        self.paid
    }

    /// The part of the payment assigned to generic or X costs.
    pub open(crate) spec fn spec_generic_paid(self) -> ManaPool {
        self.generic_paid
    }

    /// The generic amount, X included, that the plan pays.
    pub open(crate) spec fn spec_generic_required(self) -> u32 {
        self.generic_required
    }

    /// The X value the plan was made for.
    pub open(crate) spec fn spec_x_value(self) -> u32 {
        self.x_value
    }

    /// The colored mana the plan spends on generic costs.
    pub open(crate) spec fn spec_waste_score(self) -> u32 {
        self.waste_score
    }

    /// Returns all mana consumed by this plan.
    #[verifier::when_used_as_spec(spec_paid)]
    pub fn paid(self) -> (r: ManaPool)
        ensures
            r == self.spec_paid(),
    {
        self.paid
    }

    /// Returns the part of the payment assigned to generic or X costs.
    #[verifier::when_used_as_spec(spec_generic_paid)]
    pub fn generic_paid(self) -> (r: ManaPool)
        ensures
            r == self.spec_generic_paid(),
    {
        self.generic_paid
    }

    /// Returns the generic amount, including X, that this plan pays.
    #[verifier::when_used_as_spec(spec_generic_required)]
    pub fn generic_required(self) -> (r: u32)
        ensures
            r == self.spec_generic_required(),
    {
        self.generic_required
    }

    /// Returns the chosen X value captured by this plan.
    #[verifier::when_used_as_spec(spec_x_value)]
    pub fn x_value(self) -> (r: u32)
        ensures
            r == self.spec_x_value(),
    {
        self.x_value
    }

    /// Returns the ordering score used by auto-payment; lower is better.
    #[verifier::when_used_as_spec(spec_waste_score)]
    pub fn waste_score(self) -> (r: u32)
        ensures
            r == self.spec_waste_score(),
    {
        self.waste_score
    }
}

/// A bounded set of distinct payment plans.
#[derive(Clone, Debug, PartialEq, Eq)]
pub struct PaymentEnumeration {
    pub plans: Vec<PaymentPlan>,
    pub truncated: bool,
}

impl PaymentEnumeration {
    /// Returns payment plans in deterministic auto-payment order.
    pub fn plans(&self) -> (r: &[PaymentPlan])
        ensures
            r@ == self.plans@,
    {
        self.plans.as_slice()
    }

    /// Returns true when more than [`PAYMENT_PLAN_LIMIT`] plans exist.
    pub fn truncated(&self) -> (r: bool)
        ensures
            r == self.truncated,
    {
        self.truncated
    }

    /// Returns the first and therefore preferred automatic payment plan.
    pub fn best(&self) -> (r: Option<PaymentPlan>)
        ensures
            self.plans@.len() == 0 ==> r is None,
            self.plans@.len() > 0 ==> r == Some(self.plans@[0]),
    {
        if self.plans.len() > 0 {
            Some(self.plans[0])
        } else {
            None
        }
    }
}

/// Errors raised while enumerating or applying mana payments.
#[derive(Clone, Copy, Debug, PartialEq, Eq, Structural)]
pub enum PaymentError {
    /// A mana arithmetic operation overflowed `u32`.
    ManaValueOverflow,
    /// The available pool cannot cover the requested payment.
    InsufficientMana,
    /// The proposed explicit payment does not satisfy the cost.
    InvalidPaymentPlan,
}

/// Validates an explicit pool selection against an available pool and cost.
pub fn validate_payment_plan(available: ManaPool, cost: ManaCost, paid: ManaPool) -> (r: Result<
    PaymentPlan,
    PaymentError,
>)
    ensures
        !available.covers(paid) ==> r == Err::<PaymentPlan, PaymentError>(
            PaymentError::InsufficientMana,
        ),
        available.covers(paid) && !paid.covers(colored_requirement(cost)) ==> r == Err::<
            PaymentPlan,
            PaymentError,
        >(PaymentError::InvalidPaymentPlan),
        available.covers(paid) && paid.covers(colored_requirement(cost)) && generic_requirement(
            cost,
        ) > u32::MAX ==> r == Err::<PaymentPlan, PaymentError>(PaymentError::ManaValueOverflow),
        available.covers(paid) && paid.covers(colored_requirement(cost)) && generic_requirement(
            cost,
        ) <= u32::MAX ==> (r is Ok <==> paid.sum_all() - colored_requirement(cost).sum_all()
            == generic_requirement(cost)),
        available.covers(paid) && paid.covers(colored_requirement(cost)) && generic_requirement(
            cost,
        ) <= u32::MAX && paid.sum_all() - colored_requirement(cost).sum_all()
            != generic_requirement(cost) ==> r == Err::<PaymentPlan, PaymentError>(
            PaymentError::InvalidPaymentPlan,
        ),
        r matches Ok(plan) ==> plan.paid() == paid && is_valid_payment(available, cost, plan),
{
    if !available.contains_at_least(paid) {
        return Err(PaymentError::InsufficientMana);
    }
    let colored_required = cost.colored_pool();
    let generic_paid = match paid.checked_sub(colored_required) {
        Some(p) => p,
        None => return Err(PaymentError::InvalidPaymentPlan),
    };
    let generic_required = match cost.generic_total() {
        Ok(v) => v,
        Err(e) => return Err(e),
    };
    proof {
        ManaPool::lemma_diff_fields(generic_paid, paid, colored_required);
    }
    if generic_paid.total_wide() != generic_required as u64 {
        return Err(PaymentError::InvalidPaymentPlan);
    }
    let waste_score = generic_paid.colored_total();
    let plan = PaymentPlan {
        paid,
        generic_paid,
        generic_required,
        x_value: cost.x_value(),
        waste_score,
    };
    assert(plan.paid().is_sum_of(colored_requirement(cost), plan.generic_paid()));
    Ok(plan)
}

/// `pool` with slot `k` (0..6) set to `value`.
pub open spec fn set_slot(pool: ManaPool, k: int, value: u32) -> ManaPool {
    if k == 0 {
        ManaPool { white: value, ..pool }
    } else if k == 1 {
        ManaPool { blue: value, ..pool }
    } else if k == 2 {
        ManaPool { black: value, ..pool }
    } else if k == 3 {
        ManaPool { red: value, ..pool }
    } else if k == 4 {
        ManaPool { green: value, ..pool }
    } else if k == 5 {
        ManaPool { colorless: value, ..pool }
    } else {
        pool
    }
}

/// Slot-wise sum of two pools.
pub open spec fn pool_add(a: ManaPool, b: ManaPool) -> ManaPool {
    ManaPool {
        white: (a.white + b.white) as u32,
        blue: (a.blue + b.blue) as u32,
        black: (a.black + b.black) as u32,
        red: (a.red + b.red) as u32,
        green: (a.green + b.green) as u32,
        colorless: (a.colorless + b.colorless) as u32,
    }
}

/// Slot-wise difference of two pools.
pub open spec fn pool_sub(a: ManaPool, b: ManaPool) -> ManaPool {
    ManaPool {
        white: (a.white - b.white) as u32,
        blue: (a.blue - b.blue) as u32,
        black: (a.black - b.black) as u32,
        red: (a.red - b.red) as u32,
        green: (a.green - b.green) as u32,
        colorless: (a.colorless - b.colorless) as u32,
    }
}

/// The plan that pays the colored pips of `cost` exactly and its generic
/// part with `generic_paid`.
pub open(crate) spec fn plan_for(cost: ManaCost, generic_paid: ManaPool) -> PaymentPlan {
    PaymentPlan {
        paid: pool_add(colored_requirement(cost), generic_paid),
        generic_paid,
        generic_required: generic_requirement(cost) as u32,
        x_value: cost.x_value,
        waste_score: generic_paid.sum_colored() as u32,
    }
}

/// Every way, in search order, to put `target` more mana into the colored
/// slots `idx..5` of `partial`, no slot above what `remaining` holds: slot
/// `idx` takes each amount from zero up, and the later slots share the rest.
pub open spec fn colored_distributions(
    remaining: ManaPool,
    target: int,
    idx: int,
    partial: ManaPool,
) -> Seq<ManaPool>
    decreases 5 - idx, target + 2,
{
    if idx >= 5 {
        if target == 0 {
            seq![partial]
        } else {
            Seq::empty()
        }
    } else if target < 0 || idx < 0 {
        Seq::empty()
    } else {
        colored_distributions_upto(
            remaining,
            target,
            idx,
            partial,
            (if remaining.amt(idx) < target {
                remaining.amt(idx)
            } else {
                target
            }) + 1,
        )
    }
}

/// The distributions of `colored_distributions` in which slot `idx` takes
/// less than `n`.
pub open spec fn colored_distributions_upto(
    remaining: ManaPool,
    target: int,
    idx: int,
    partial: ManaPool,
    n: int,
) -> Seq<ManaPool>
    decreases 5 - idx, n,
{
    if n <= 0 || idx >= 5 || idx < 0 {
        Seq::empty()
    } else {
        colored_distributions_upto(remaining, target, idx, partial, n - 1) + colored_distributions(
            remaining,
            target - (n - 1),
            idx + 1,
            set_slot(partial, idx, (n - 1) as u32),
        )
    }
}

/// The plans for the given generic-part distributions of colored mana, with
/// `colorless` colorless mana on the generic part.
pub open spec fn plans_of(cost: ManaCost, distributions: Seq<ManaPool>, colorless: u32) -> Seq<
    PaymentPlan,
> {
    distributions.map_values(|g: ManaPool| plan_for(cost, set_slot(g, 5, colorless)))
}

/// The plans, in search order, that spend `spend` colored mana on the
/// generic part of `cost`.
pub open spec fn plans_for_spend(available: ManaPool, cost: ManaCost, spend: int) -> Seq<
    PaymentPlan,
> {
    let remaining = pool_sub(available, colored_requirement(cost));
    let colorless = generic_requirement(cost) - spend;
    if colorless < 0 || colorless > remaining.colorless {
        Seq::empty()
    } else {
        plans_of(cost, colored_distributions(remaining, spend, 0, ManaPool::zero()), colorless as u32)
    }
}

/// The plans, in search order, that spend less than `n` colored mana on the
/// generic part.
pub open spec fn plans_for_spends_below(available: ManaPool, cost: ManaCost, n: int) -> Seq<
    PaymentPlan,
>
    decreases n,
{
    if n <= 0 {
        Seq::empty()
    } else {
        plans_for_spends_below(available, cost, n - 1) + plans_for_spend(available, cost, n - 1)
    }
}

/// Every payment plan of `cost` out of `available`, in the order the
/// enumeration produces them: by colored mana spent on the generic part,
/// then slot by slot from white to green.
pub open spec fn payment_plans_in_order(available: ManaPool, cost: ManaCost) -> Seq<PaymentPlan> {
    let colored = colored_requirement(cost);
    let generic = generic_requirement(cost);
    let remaining = pool_sub(available, colored);
    if !available.covers(colored) || generic > remaining.sum_all() {
        Seq::empty()
    } else {
        plans_for_spends_below(
            available,
            cost,
            (if generic < remaining.sum_colored() {
                generic
            } else {
                remaining.sum_colored()
            }) + 1,
        )
    }
}

/// The first `PAYMENT_PLAN_LIMIT` entries of `all`, or all of them.
pub open spec fn capped(all: Seq<PaymentPlan>) -> Seq<PaymentPlan> {
    if all.len() <= PAYMENT_PLAN_LIMIT {
        all
    } else {
        all.take(PAYMENT_PLAN_LIMIT as int)
    }
}

proof fn lemma_plans_of_add(cost: ManaCost, a: Seq<ManaPool>, b: Seq<ManaPool>, colorless: u32)
    ensures
        plans_of(cost, a + b, colorless) == plans_of(cost, a, colorless) + plans_of(cost, b, colorless),
{
    assert(plans_of(cost, a + b, colorless) =~= plans_of(cost, a, colorless) + plans_of(
        cost,
        b,
        colorless,
    ));
}

proof fn lemma_distributions_upto_prefix(
    remaining: ManaPool,
    target: int,
    idx: int,
    partial: ManaPool,
    n: int,
    m: int,
)
    requires
        0 <= n <= m,
    ensures
        colored_distributions_upto(remaining, target, idx, partial, n).len()
            <= colored_distributions_upto(remaining, target, idx, partial, m).len(),
        colored_distributions_upto(remaining, target, idx, partial, m).subrange(
            0,
            colored_distributions_upto(remaining, target, idx, partial, n).len() as int,
        ) == colored_distributions_upto(remaining, target, idx, partial, n),
    decreases m - n,
{
    let small = colored_distributions_upto(remaining, target, idx, partial, n);
    let big = colored_distributions_upto(remaining, target, idx, partial, m);
    if n < m {
        lemma_distributions_upto_prefix(remaining, target, idx, partial, n, m - 1);
        let mid = colored_distributions_upto(remaining, target, idx, partial, m - 1);
        if idx >= 5 || idx < 0 {
            assert(big =~= Seq::<ManaPool>::empty());
        } else {
            assert(big.subrange(0, mid.len() as int) =~= mid);
        }
        assert(big.subrange(0, small.len() as int) =~= small);
    } else {
        assert(big.subrange(0, small.len() as int) =~= small);
    }
}

proof fn lemma_spends_below_prefix(available: ManaPool, cost: ManaCost, n: int, m: int)
    requires
        0 <= n <= m,
    ensures
        plans_for_spends_below(available, cost, n).len() <= plans_for_spends_below(
            available,
            cost,
            m,
        ).len(),
        plans_for_spends_below(available, cost, m).subrange(
            0,
            plans_for_spends_below(available, cost, n).len() as int,
        ) == plans_for_spends_below(available, cost, n),
    decreases m - n,
{
    let small = plans_for_spends_below(available, cost, n);
    let big = plans_for_spends_below(available, cost, m);
    if n < m {
        lemma_spends_below_prefix(available, cost, n, m - 1);
        let mid = plans_for_spends_below(available, cost, m - 1);
        assert(big.subrange(0, mid.len() as int) =~= mid);
        assert(big.subrange(0, small.len() as int) =~= small);
    } else {
        assert(big.subrange(0, small.len() as int) =~= small);
    }
}

/// Capping a longer sequence that starts with `prefix` keeps the cap of
/// `prefix` once `prefix` alone passes the cap.
proof fn lemma_capped_prefix(prefix: Seq<PaymentPlan>, all: Seq<PaymentPlan>)
    requires
        prefix.len() <= all.len(),
        all.subrange(0, prefix.len() as int) == prefix,
        prefix.len() > PAYMENT_PLAN_LIMIT,
    ensures
        capped(all) == capped(prefix),
{
    assert(all.take(PAYMENT_PLAN_LIMIT as int) =~= prefix.take(PAYMENT_PLAN_LIMIT as int)) by {
        assert forall|i: int| 0 <= i < PAYMENT_PLAN_LIMIT implies all[i] == prefix[i] by {
            assert(all.subrange(0, prefix.len() as int)[i] == prefix[i]);
        }
    }
}

/// The mana in colored slots `idx..5` of `pool`.
pub open spec fn colored_from(pool: ManaPool, idx: int) -> int
    decreases 5 - idx,
{
    if idx >= 5 || idx < 0 {
        0
    } else {
        pool.amt(idx) + colored_from(pool, idx + 1)
    }
}

proof fn lemma_set_slot(pool: ManaPool, k: int, value: u32)
    requires
        0 <= k < 6,
    ensures
        forall|j: int|
            #[trigger] set_slot(pool, k, value).amt(j) == (if j == k {
                value as int
            } else {
                pool.amt(j)
            }),
{
}

/// What every distribution of `colored_distributions` looks like: it keeps
/// `partial` outside the slots `idx..5`, stays within `remaining` there, and
/// puts exactly `target` into them.
pub open spec fn distribution_fits(
    remaining: ManaPool,
    target: int,
    idx: int,
    partial: ManaPool,
    g: ManaPool,
) -> bool {
    &&& forall|k: int| (0 <= k < idx || k == 5) ==> #[trigger] g.amt(k) == partial.amt(k)
    &&& forall|k: int| idx <= k < 5 ==> #[trigger] g.amt(k) <= remaining.amt(k)
    &&& colored_from(g, idx) == target
}

proof fn lemma_distributions_fit(remaining: ManaPool, target: int, idx: int, partial: ManaPool)
    requires
        0 <= idx <= 5,
    ensures
        forall|i: int|
            0 <= i < colored_distributions(remaining, target, idx, partial).len()
                ==> distribution_fits(
                remaining,
                target,
                idx,
                partial,
                #[trigger] colored_distributions(remaining, target, idx, partial)[i],
            ),
        forall|i: int, j: int|
            0 <= i < j < colored_distributions(remaining, target, idx, partial).len()
                ==> #[trigger] colored_distributions(remaining, target, idx, partial)[i]
                != #[trigger] colored_distributions(remaining, target, idx, partial)[j],
    decreases 5 - idx, target + 2,
{
    if idx < 5 && target >= 0 {
        let n = (if remaining.amt(idx) < target {
            remaining.amt(idx)
        } else {
            target
        }) + 1;
        lemma_distributions_upto_fit(remaining, target, idx, partial, n);
        assert(colored_distributions(remaining, target, idx, partial)
            == colored_distributions_upto(remaining, target, idx, partial, n));
    } else if idx >= 5 && target == 0 {
        let d = colored_distributions(remaining, target, idx, partial);
        assert(d == seq![partial]);
        assert(distribution_fits(remaining, target, idx, partial, d[0]));
    } else {
        assert(colored_distributions(remaining, target, idx, partial).len() == 0);
    }
}

proof fn lemma_distributions_upto_fit(
    remaining: ManaPool,
    target: int,
    idx: int,
    partial: ManaPool,
    n: int,
)
    requires
        0 <= idx < 5,
        0 <= target,
        0 <= n <= (if remaining.amt(idx) < target {
            remaining.amt(idx)
        } else {
            target
        }) + 1,
    ensures
        forall|i: int|
            0 <= i < colored_distributions_upto(remaining, target, idx, partial, n).len() ==> {
                let g = #[trigger] colored_distributions_upto(remaining, target, idx, partial, n)[i];
                &&& distribution_fits(remaining, target, idx, partial, g)
                &&& g.amt(idx) < n
            },
        forall|i: int, j: int|
            0 <= i < j < colored_distributions_upto(remaining, target, idx, partial, n).len()
                ==> #[trigger] colored_distributions_upto(remaining, target, idx, partial, n)[i]
                != #[trigger] colored_distributions_upto(remaining, target, idx, partial, n)[j],
    decreases 5 - idx, n,
{
    if n > 0 {
        let a = n - 1;
        let next = set_slot(partial, idx, a as u32);
        lemma_distributions_upto_fit(remaining, target, idx, partial, a);
        lemma_distributions_fit(remaining, target - a, idx + 1, next);
        lemma_set_slot(partial, idx, a as u32);
        let head = colored_distributions_upto(remaining, target, idx, partial, a);
        let tail = colored_distributions(remaining, target - a, idx + 1, next);
        let all = colored_distributions_upto(remaining, target, idx, partial, n);
        assert(all == head + tail);
        assert forall|i: int| 0 <= i < all.len() implies {
            let g = #[trigger] all[i];
            &&& distribution_fits(remaining, target, idx, partial, g)
            &&& g.amt(idx) < n
        } by {
            if i < head.len() {
                assert(all[i] == head[i]);
            } else {
                let g = all[i];
                assert(g == tail[i - head.len()]);
                assert(distribution_fits(remaining, target - a, idx + 1, next, g));
                assert(g.amt(idx) == next.amt(idx));
                assert forall|k: int| (0 <= k < idx || k == 5) implies #[trigger] g.amt(k)
                    == partial.amt(k) by {
                    assert(g.amt(k) == next.amt(k));
                }
                assert forall|k: int| idx <= k < 5 implies #[trigger] g.amt(k) <= remaining.amt(k) by {
                    if k > idx {
                        assert(g.amt(k) <= remaining.amt(k));
                    }
                }
                assert(colored_from(g, idx) == g.amt(idx) + colored_from(g, idx + 1));
            }
        }
        assert forall|i: int, j: int| 0 <= i < j < all.len() implies #[trigger] all[i] != #[trigger] all[j] by {
            if j < head.len() {
                assert(all[i] == head[i] && all[j] == head[j]);
            } else if i >= head.len() {
                assert(all[i] == tail[i - head.len()] && all[j] == tail[j - head.len()]);
            } else {
                assert(all[i] == head[i]);
                assert(all[j] == tail[j - head.len()]);
                assert(all[i].amt(idx) < a);
                assert(distribution_fits(remaining, target - a, idx + 1, next, all[j]));
                assert(all[j].amt(idx) == next.amt(idx));
            }
        }
    }
}

proof fn lemma_colored_from_zero(pool: ManaPool)
    ensures
        colored_from(pool, 0) == pool.sum_colored(),
{
    assert(colored_from(pool, 5) == 0);
    assert(colored_from(pool, 4) == pool.amt(4));
    assert(colored_from(pool, 3) == pool.amt(3) + pool.amt(4));
    assert(colored_from(pool, 2) == pool.amt(2) + pool.amt(3) + pool.amt(4));
    assert(colored_from(pool, 1) == pool.amt(1) + pool.amt(2) + pool.amt(3) + pool.amt(4));
}

/// The plans for one generic colored spend are valid payments with that
/// waste score, none listed twice.
proof fn lemma_spend_plans_fit(available: ManaPool, cost: ManaCost, spend: int)
    requires
        generic_requirement(cost) <= u32::MAX,
        available.covers(colored_requirement(cost)),
    ensures
        forall|i: int|
            0 <= i < plans_for_spend(available, cost, spend).len() ==> {
                let plan = #[trigger] plans_for_spend(available, cost, spend)[i];
                is_valid_payment(available, cost, plan) && plan.waste_score() == spend
            },
        forall|i: int, j: int|
            0 <= i < j < plans_for_spend(available, cost, spend).len()
                ==> #[trigger] plans_for_spend(available, cost, spend)[i]
                != #[trigger] plans_for_spend(available, cost, spend)[j],
{
    let colored = colored_requirement(cost);
    let remaining = pool_sub(available, colored);
    let colorless = generic_requirement(cost) - spend;
    if 0 <= colorless <= remaining.colorless {
        let d = colored_distributions(remaining, spend, 0, ManaPool::zero());
        let plans = plans_for_spend(available, cost, spend);
        lemma_distributions_fit(remaining, spend, 0, ManaPool::zero());
        assert(plans == plans_of(cost, d, colorless as u32));
        assert forall|i: int| 0 <= i < plans.len() implies {
            let plan = #[trigger] plans[i];
            is_valid_payment(available, cost, plan) && plan.waste_score() == spend
        } by {
            let g = d[i];
            let gp = set_slot(g, 5, colorless as u32);
            assert(distribution_fits(remaining, spend, 0, ManaPool::zero(), g));
            lemma_set_slot(g, 5, colorless as u32);
            lemma_colored_from_zero(g);
            assert(plans[i] == plan_for(cost, gp));
            assert(gp.sum_colored() == g.sum_colored());
            assert forall|k: int| 0 <= k < 6 implies available.amt(k) >= pool_add(colored, gp).amt(k)
                && #[trigger] pool_add(colored, gp).amt(k) == colored.amt(k) + gp.amt(k) by {
                assert(gp.amt(k) <= available.amt(k) - colored.amt(k));
            }
        }
        assert forall|i: int, j: int| 0 <= i < j < plans.len() implies #[trigger] plans[i]
            != #[trigger] plans[j] by {
            let gi = d[i];
            let gj = d[j];
            assert(gi != gj);
            assert(distribution_fits(remaining, spend, 0, ManaPool::zero(), gi));
            assert(distribution_fits(remaining, spend, 0, ManaPool::zero(), gj));
            lemma_set_slot(gi, 5, colorless as u32);
            lemma_set_slot(gj, 5, colorless as u32);
            if plans[i] == plans[j] {
                let pi = set_slot(gi, 5, colorless as u32);
                let pj = set_slot(gj, 5, colorless as u32);
                assert(pi == pj);
                assert(gi.amt(0) == pi.amt(0) && gj.amt(0) == pj.amt(0));
                assert(gi.amt(1) == pi.amt(1) && gj.amt(1) == pj.amt(1));
                assert(gi.amt(2) == pi.amt(2) && gj.amt(2) == pj.amt(2));
                assert(gi.amt(3) == pi.amt(3) && gj.amt(3) == pj.amt(3));
                assert(gi.amt(4) == pi.amt(4) && gj.amt(4) == pj.amt(4));
                assert(gi.amt(5) == 0 && gj.amt(5) == 0);
                assert(gi == gj);
            }
        }
    }
}

proof fn lemma_spends_below_fit(available: ManaPool, cost: ManaCost, n: int)
    requires
        generic_requirement(cost) <= u32::MAX,
        available.covers(colored_requirement(cost)),
    ensures
        forall|i: int|
            0 <= i < plans_for_spends_below(available, cost, n).len() ==> {
                let plan = #[trigger] plans_for_spends_below(available, cost, n)[i];
                is_valid_payment(available, cost, plan) && plan.waste_score() < n
            },
        forall|i: int, j: int|
            0 <= i < j < plans_for_spends_below(available, cost, n).len() ==> #[trigger] plans_for_spends_below(
                available,
                cost,
                n,
            )[i].waste_score() <= #[trigger] plans_for_spends_below(available, cost, n)[j].waste_score()
                && plans_for_spends_below(available, cost, n)[i] != plans_for_spends_below(
                available,
                cost,
                n,
            )[j],
    decreases n,
{
    if n > 0 {
        lemma_spends_below_fit(available, cost, n - 1);
        lemma_spend_plans_fit(available, cost, n - 1);
        let head = plans_for_spends_below(available, cost, n - 1);
        let tail = plans_for_spend(available, cost, n - 1);
        let all = plans_for_spends_below(available, cost, n);
        assert(all == head + tail);
        assert forall|i: int| 0 <= i < all.len() implies {
            let plan = #[trigger] all[i];
            is_valid_payment(available, cost, plan) && plan.waste_score() < n
        } by {
            if i < head.len() {
                assert(all[i] == head[i]);
            } else {
                assert(all[i] == tail[i - head.len()]);
            }
        }
        assert forall|i: int, j: int| 0 <= i < j < all.len() implies #[trigger] all[i].waste_score()
            <= #[trigger] all[j].waste_score() && all[i] != all[j] by {
            if j < head.len() {
                assert(all[i] == head[i] && all[j] == head[j]);
            } else if i >= head.len() {
                assert(all[i] == tail[i - head.len()] && all[j] == tail[j - head.len()]);
            } else {
                assert(all[i] == head[i]);
                assert(all[j] == tail[j - head.len()]);
            }
        }
    }
}

/// The payment plans of `cost` out of `available`, in enumeration order,
/// are all valid payments, in nondecreasing waste order, none listed twice.
pub proof fn lemma_payment_plans_sound_and_distinct(available: ManaPool, cost: ManaCost)
    requires
        generic_requirement(cost) <= u32::MAX,
    ensures
        forall|i: int|
            0 <= i < payment_plans_in_order(available, cost).len() ==> is_valid_payment(
                available,
                cost,
                #[trigger] payment_plans_in_order(available, cost)[i],
            ),
        forall|i: int, j: int|
            0 <= i < j < payment_plans_in_order(available, cost).len() ==> #[trigger] payment_plans_in_order(
                available,
                cost,
            )[i].waste_score() <= #[trigger] payment_plans_in_order(available, cost)[j].waste_score()
                && payment_plans_in_order(available, cost)[i] != payment_plans_in_order(
                available,
                cost,
            )[j],
{
    let colored = colored_requirement(cost);
    let generic = generic_requirement(cost);
    let remaining = pool_sub(available, colored);
    if available.covers(colored) && generic <= remaining.sum_all() {
        let n = (if generic < remaining.sum_colored() {
            generic
        } else {
            remaining.sum_colored()
        }) + 1;
        lemma_spends_below_fit(available, cost, n);
    }
}

/// `a` comes before `b` when their colored slots `idx..5` are read as a word,
/// white first and green last.
pub open spec fn colored_before(a: ManaPool, b: ManaPool, idx: int) -> bool
    decreases 5 - idx,
{
    if idx >= 5 || idx < 0 {
        false
    } else {
        a.amt(idx) < b.amt(idx) || (a.amt(idx) == b.amt(idx) && colored_before(a, b, idx + 1))
    }
}

/// The order in which payment plans are listed: by the colored mana put on
/// the generic part, then by the white, blue, black, red and green amounts
/// put there.
pub open spec fn payment_before(a: PaymentPlan, b: PaymentPlan) -> bool {
    ||| a.generic_paid().sum_colored() < b.generic_paid().sum_colored()
    ||| a.generic_paid().sum_colored() == b.generic_paid().sum_colored() && colored_before(
        a.generic_paid(),
        b.generic_paid(),
        0,
    )
}

proof fn lemma_distributions_ascending(remaining: ManaPool, target: int, idx: int, partial: ManaPool)
    requires
        0 <= idx <= 5,
    ensures
        forall|i: int, j: int|
            0 <= i < j < colored_distributions(remaining, target, idx, partial).len() ==> colored_before(
                #[trigger] colored_distributions(remaining, target, idx, partial)[i],
                #[trigger] colored_distributions(remaining, target, idx, partial)[j],
                idx,
            ),
    decreases 5 - idx, target + 2,
{
    if idx < 5 && target >= 0 {
        let n = (if remaining.amt(idx) < target {
            remaining.amt(idx)
        } else {
            target
        }) + 1;
        lemma_distributions_upto_ascending(remaining, target, idx, partial, n);
        assert(colored_distributions(remaining, target, idx, partial)
            == colored_distributions_upto(remaining, target, idx, partial, n));
    } else if idx >= 5 && target == 0 {
        assert(colored_distributions(remaining, target, idx, partial) == seq![partial]);
    } else {
        assert(colored_distributions(remaining, target, idx, partial).len() == 0);
    }
}

proof fn lemma_distributions_upto_ascending(
    remaining: ManaPool,
    target: int,
    idx: int,
    partial: ManaPool,
    n: int,
)
    requires
        0 <= idx < 5,
        0 <= target,
        0 <= n <= (if remaining.amt(idx) < target {
            remaining.amt(idx)
        } else {
            target
        }) + 1,
    ensures
        forall|i: int, j: int|
            0 <= i < j < colored_distributions_upto(remaining, target, idx, partial, n).len()
                ==> colored_before(
                #[trigger] colored_distributions_upto(remaining, target, idx, partial, n)[i],
                #[trigger] colored_distributions_upto(remaining, target, idx, partial, n)[j],
                idx,
            ),
    decreases 5 - idx, n,
{
    if n > 0 {
        let a = n - 1;
        let next = set_slot(partial, idx, a as u32);
        lemma_distributions_upto_ascending(remaining, target, idx, partial, a);
        lemma_distributions_ascending(remaining, target - a, idx + 1, next);
        lemma_distributions_upto_fit(remaining, target, idx, partial, a);
        lemma_distributions_fit(remaining, target - a, idx + 1, next);
        lemma_set_slot(partial, idx, a as u32);
        let head = colored_distributions_upto(remaining, target, idx, partial, a);
        let tail = colored_distributions(remaining, target - a, idx + 1, next);
        let all = colored_distributions_upto(remaining, target, idx, partial, n);
        assert(all == head + tail);
        assert forall|i: int, j: int| 0 <= i < j < all.len() implies colored_before(
            #[trigger] all[i],
            #[trigger] all[j],
            idx,
        ) by {
            if j < head.len() {
                assert(all[i] == head[i] && all[j] == head[j]);
            } else if i >= head.len() {
                assert(all[i] == tail[i - head.len()] && all[j] == tail[j - head.len()]);
                assert(distribution_fits(remaining, target - a, idx + 1, next, all[i]));
                assert(distribution_fits(remaining, target - a, idx + 1, next, all[j]));
                assert(all[i].amt(idx) == next.amt(idx) && all[j].amt(idx) == next.amt(idx));
                assert(colored_before(all[i], all[j], idx + 1));
            } else {
                assert(all[i] == head[i]);
                assert(all[j] == tail[j - head.len()]);
                assert(all[i].amt(idx) < a);
                assert(distribution_fits(remaining, target - a, idx + 1, next, all[j]));
                assert(all[j].amt(idx) == next.amt(idx));
            }
        }
    }
}

/// Only the colored slots decide `colored_before`.
proof fn lemma_colored_before_colored_only(a: ManaPool, b: ManaPool, c: ManaPool, d: ManaPool, idx: int)
    requires
        forall|k: int| 0 <= k < 5 ==> #[trigger] a.amt(k) == c.amt(k) && b.amt(k) == d.amt(k),
    ensures
        colored_before(a, b, idx) == colored_before(c, d, idx),
    decreases 5 - idx,
{
    if 0 <= idx < 5 {
        lemma_colored_before_colored_only(a, b, c, d, idx + 1);
        assert(a.amt(idx) == c.amt(idx));
    }
}

proof fn lemma_spend_plans_ascending(available: ManaPool, cost: ManaCost, spend: int)
    ensures
        forall|i: int|
            0 <= i < plans_for_spend(available, cost, spend).len()
                ==> (#[trigger] plans_for_spend(available, cost, spend)[i]).generic_paid().sum_colored()
                == spend,
        forall|i: int, j: int|
            0 <= i < j < plans_for_spend(available, cost, spend).len() ==> payment_before(
                #[trigger] plans_for_spend(available, cost, spend)[i],
                #[trigger] plans_for_spend(available, cost, spend)[j],
            ),
{
    let colored = colored_requirement(cost);
    let remaining = pool_sub(available, colored);
    let colorless = generic_requirement(cost) - spend;
    if 0 <= colorless <= remaining.colorless {
        let d = colored_distributions(remaining, spend, 0, ManaPool::zero());
        let plans = plans_for_spend(available, cost, spend);
        lemma_distributions_fit(remaining, spend, 0, ManaPool::zero());
        lemma_distributions_ascending(remaining, spend, 0, ManaPool::zero());
        assert(plans == plans_of(cost, d, colorless as u32));
        assert forall|i: int| 0 <= i < plans.len() implies (#[trigger] plans[i]).generic_paid().sum_colored()
            == spend by {
            let g = d[i];
            assert(distribution_fits(remaining, spend, 0, ManaPool::zero(), g));
            lemma_set_slot(g, 5, colorless as u32);
            lemma_colored_from_zero(g);
            assert(plans[i] == plan_for(cost, set_slot(g, 5, colorless as u32)));
        }
        assert forall|i: int, j: int| 0 <= i < j < plans.len() implies payment_before(
            #[trigger] plans[i],
            #[trigger] plans[j],
        ) by {
            let gi = d[i];
            let gj = d[j];
            assert(distribution_fits(remaining, spend, 0, ManaPool::zero(), gi));
            assert(distribution_fits(remaining, spend, 0, ManaPool::zero(), gj));
            lemma_set_slot(gi, 5, colorless as u32);
            lemma_set_slot(gj, 5, colorless as u32);
            lemma_colored_from_zero(gi);
            lemma_colored_from_zero(gj);
            let pi = set_slot(gi, 5, colorless as u32);
            let pj = set_slot(gj, 5, colorless as u32);
            assert(plans[i] == plan_for(cost, pi));
            assert(plans[j] == plan_for(cost, pj));
            assert(colored_before(gi, gj, 0));
            lemma_colored_before_colored_only(gi, gj, pi, pj, 0);
        }
    }
}

proof fn lemma_spends_below_ascending(available: ManaPool, cost: ManaCost, n: int)
    ensures
        forall|i: int|
            0 <= i < plans_for_spends_below(available, cost, n).len()
                ==> (#[trigger] plans_for_spends_below(available, cost, n)[i]).generic_paid().sum_colored()
                < n,
        forall|i: int, j: int|
            0 <= i < j < plans_for_spends_below(available, cost, n).len() ==> payment_before(
                #[trigger] plans_for_spends_below(available, cost, n)[i],
                #[trigger] plans_for_spends_below(available, cost, n)[j],
            ),
    decreases n,
{
    if n > 0 {
        lemma_spends_below_ascending(available, cost, n - 1);
        lemma_spend_plans_ascending(available, cost, n - 1);
        let head = plans_for_spends_below(available, cost, n - 1);
        let tail = plans_for_spend(available, cost, n - 1);
        let all = plans_for_spends_below(available, cost, n);
        assert(all == head + tail);
        assert forall|i: int| 0 <= i < all.len() implies (#[trigger] all[i]).generic_paid().sum_colored()
            < n by {
            if i < head.len() {
                assert(all[i] == head[i]);
            } else {
                assert(all[i] == tail[i - head.len()]);
            }
        }
        assert forall|i: int, j: int| 0 <= i < j < all.len() implies payment_before(
            #[trigger] all[i],
            #[trigger] all[j],
        ) by {
            if j < head.len() {
                assert(all[i] == head[i] && all[j] == head[j]);
            } else if i >= head.len() {
                assert(all[i] == tail[i - head.len()] && all[j] == tail[j - head.len()]);
            } else {
                assert(all[i] == head[i]);
                assert(all[j] == tail[j - head.len()]);
            }
        }
    }
}

/// The payment plans come in strictly ascending order: fewer colored mana
/// on the generic part first, and among equals, less white, then blue,
/// black, red and green there.
pub proof fn lemma_payment_plans_ascending(available: ManaPool, cost: ManaCost)
    ensures
        forall|i: int, j: int|
            0 <= i < j < payment_plans_in_order(available, cost).len() ==> payment_before(
                #[trigger] payment_plans_in_order(available, cost)[i],
                #[trigger] payment_plans_in_order(available, cost)[j],
            ),
{
    let colored = colored_requirement(cost);
    let generic = generic_requirement(cost);
    let remaining = pool_sub(available, colored);
    if available.covers(colored) && generic <= remaining.sum_all() {
        let n = (if generic < remaining.sum_colored() {
            generic
        } else {
            remaining.sum_colored()
        }) + 1;
        lemma_spends_below_ascending(available, cost, n);
    }
}

/// The payment plans are exactly the valid payments of `cost` out of
/// `available`, each listed once, sorted by `payment_before`.
pub proof fn lemma_payment_plans_are_the_valid_payments_sorted(available: ManaPool, cost: ManaCost)
    requires
        generic_requirement(cost) <= u32::MAX,
    ensures
        forall|q: PaymentPlan|
            is_valid_payment(available, cost, q) <==> #[trigger] payment_plans_in_order(available, cost).contains(q),
        forall|i: int, j: int|
            0 <= i < j < payment_plans_in_order(available, cost).len() ==> payment_before(
                #[trigger] payment_plans_in_order(available, cost)[i],
                #[trigger] payment_plans_in_order(available, cost)[j],
            ),
{
    let all = payment_plans_in_order(available, cost);
    lemma_payment_plans_sound_and_distinct(available, cost);
    lemma_payment_plans_ascending(available, cost);
    assert forall|q: PaymentPlan| is_valid_payment(available, cost, q) <==> #[trigger] all.contains(q) by {
        if is_valid_payment(available, cost, q) {
            lemma_payment_plans_complete(available, cost, q);
        }
        if all.contains(q) {
            let i = choose|i: int| 0 <= i < all.len() && all[i] == q;
            assert(is_valid_payment(available, cost, all[i]));
        }
    }
}

proof fn lemma_colored_from_nonneg(pool: ManaPool, idx: int)
    ensures
        colored_from(pool, idx) >= 0,
    decreases 5 - idx,
{
    if 0 <= idx < 5 {
        lemma_colored_from_nonneg(pool, idx + 1);
    }
}

proof fn lemma_concat_contains<A>(head: Seq<A>, tail: Seq<A>, x: A)
    requires
        head.contains(x) || tail.contains(x),
    ensures
        (head + tail).contains(x),
{
    if head.contains(x) {
        let i = choose|i: int| 0 <= i < head.len() && head[i] == x;
        assert((head + tail)[i] == x);
    } else {
        let i = choose|i: int| 0 <= i < tail.len() && tail[i] == x;
        assert((head + tail)[head.len() + i] == x);
    }
}

proof fn lemma_distribution_member(
    remaining: ManaPool,
    target: int,
    idx: int,
    partial: ManaPool,
    g: ManaPool,
)
    requires
        0 <= idx <= 5,
        forall|k: int| (0 <= k < idx || k == 5) ==> #[trigger] g.amt(k) == partial.amt(k),
        forall|k: int| idx <= k < 5 ==> #[trigger] g.amt(k) <= remaining.amt(k),
        colored_from(g, idx) == target,
    ensures
        colored_distributions(remaining, target, idx, partial).contains(g),
    decreases 5 - idx,
{
    if idx == 5 {
        assert(g.amt(0) == partial.amt(0) && g.amt(1) == partial.amt(1) && g.amt(2) == partial.amt(2));
        assert(g.amt(3) == partial.amt(3) && g.amt(4) == partial.amt(4) && g.amt(5) == partial.amt(5));
        assert(g == partial);
        assert(colored_distributions(remaining, target, idx, partial)[0] == g);
    } else {
        let a = g.amt(idx);
        let next = set_slot(partial, idx, a as u32);
        lemma_set_slot(partial, idx, a as u32);
        lemma_colored_from_nonneg(g, idx + 1);
        assert(colored_from(g, idx) == a + colored_from(g, idx + 1));
        assert forall|k: int| (0 <= k < idx + 1 || k == 5) implies #[trigger] g.amt(k) == next.amt(k) by {}
        lemma_distribution_member(remaining, target - a, idx + 1, next, g);
        let n = (if remaining.amt(idx) < target {
            remaining.amt(idx)
        } else {
            target
        }) + 1;
        lemma_distributions_upto_member(remaining, target, idx, partial, n, g);
        assert(colored_distributions(remaining, target, idx, partial)
            == colored_distributions_upto(remaining, target, idx, partial, n));
    }
}

proof fn lemma_distributions_upto_member(
    remaining: ManaPool,
    target: int,
    idx: int,
    partial: ManaPool,
    n: int,
    g: ManaPool,
)
    requires
        0 <= idx < 5,
        g.amt(idx) < n,
        colored_distributions(
            remaining,
            target - g.amt(idx),
            idx + 1,
            set_slot(partial, idx, g.amt(idx) as u32),
        ).contains(g),
    ensures
        colored_distributions_upto(remaining, target, idx, partial, n).contains(g),
    decreases n,
{
    let head = colored_distributions_upto(remaining, target, idx, partial, n - 1);
    let tail = colored_distributions(remaining, target - (n - 1), idx + 1, set_slot(partial, idx, (n - 1) as u32));
    assert(colored_distributions_upto(remaining, target, idx, partial, n) == head + tail);
    if g.amt(idx) == n - 1 {
        lemma_concat_contains(head, tail, g);
    } else {
        lemma_distributions_upto_member(remaining, target, idx, partial, n - 1, g);
        lemma_concat_contains(head, tail, g);
    }
}

proof fn lemma_spends_below_member(available: ManaPool, cost: ManaCost, spend: int, n: int, plan: PaymentPlan)
    requires
        0 <= spend < n,
        plans_for_spend(available, cost, spend).contains(plan),
    ensures
        plans_for_spends_below(available, cost, n).contains(plan),
    decreases n,
{
    let head = plans_for_spends_below(available, cost, n - 1);
    let tail = plans_for_spend(available, cost, n - 1);
    if spend < n - 1 {
        lemma_spends_below_member(available, cost, spend, n - 1, plan);
    }
    lemma_concat_contains(head, tail, plan);
}

/// Every valid payment of `cost` out of `available` is among the plans the
/// enumeration produces.
pub proof fn lemma_payment_plans_complete(available: ManaPool, cost: ManaCost, plan: PaymentPlan)
    requires
        is_valid_payment(available, cost, plan),
    ensures
        payment_plans_in_order(available, cost).contains(plan),
{
    let colored = colored_requirement(cost);
    let generic = generic_requirement(cost);
    let remaining = pool_sub(available, colored);
    let g = plan.generic_paid();
    let spend = g.sum_colored();
    let colorless = g.colorless;
    assert forall|k: int| 0 <= k < 6 implies available.amt(k) >= colored.amt(k) + g.amt(k)
        && #[trigger] remaining.amt(k) == available.amt(k) - colored.amt(k) by {
        assert(plan.paid().amt(k) == colored.amt(k) + g.amt(k));
    }
    assert(available.covers(colored));
    assert(remaining.amt(0) >= g.amt(0) && remaining.amt(1) >= g.amt(1) && remaining.amt(2) >= g.amt(2));
    assert(remaining.amt(3) >= g.amt(3) && remaining.amt(4) >= g.amt(4) && remaining.amt(5) >= g.amt(5));
    assert(generic <= remaining.sum_all());
    assert(generic - spend == colorless);
    assert(colorless <= remaining.colorless);
    let c = set_slot(g, 5, 0);
    lemma_set_slot(g, 5, 0);
    lemma_colored_from_zero(c);
    lemma_distribution_member(remaining, spend, 0, ManaPool::zero(), c);
    let d = colored_distributions(remaining, spend, 0, ManaPool::zero());
    let i = choose|i: int| 0 <= i < d.len() && d[i] == c;
    assert(set_slot(c, 5, colorless) == g);
    assert(plan.paid() == pool_add(colored, g)) by {
        assert(plan.paid().amt(0) == colored.amt(0) + g.amt(0));
        assert(plan.paid().amt(1) == colored.amt(1) + g.amt(1));
        assert(plan.paid().amt(2) == colored.amt(2) + g.amt(2));
        assert(plan.paid().amt(3) == colored.amt(3) + g.amt(3));
        assert(plan.paid().amt(4) == colored.amt(4) + g.amt(4));
        assert(plan.paid().amt(5) == colored.amt(5) + g.amt(5));
    }
    assert(plan == plan_for(cost, g));
    let spend_plans = plans_for_spend(available, cost, spend);
    assert(spend_plans == plans_of(cost, d, colorless));
    assert(spend_plans[i] == plan);
    let n = (if generic < remaining.sum_colored() {
        generic
    } else {
        remaining.sum_colored()
    }) + 1;
    lemma_spends_below_member(available, cost, spend, n, plan);
}

struct PaymentSearch {
    available: ManaPool,
    cost: ManaCost,
    remaining: ManaPool,
    colorless_spend: u32,
    colored_spend: u32,
    colored_required: ManaPool,
    generic_required: u32,
    x_value: u32,
}

impl PaymentSearch {
    spec fn wf(self) -> bool {
        &&& self.colored_required == colored_requirement(self.cost)
        &&& self.remaining.is_diff_of(self.available, self.colored_required)
        &&& self.generic_required == generic_requirement(self.cost)
        &&& self.colorless_spend + self.colored_spend == self.generic_required
        &&& self.colorless_spend <= self.remaining.colorless
        &&& self.x_value == self.cost.x_value
    }
}

/// Plans with index at least `from` are valid payments that each spend exactly
/// `spend` colored mana on the generic part.
spec fn plans_tail_ok(
    plans: Seq<PaymentPlan>,
    from: int,
    available: ManaPool,
    cost: ManaCost,
    spend: int,
) -> bool {
    forall|i: int|
        from <= i < plans.len() ==> is_valid_payment(available, cost, #[trigger] plans[i])
            && plans[i].waste_score() == spend
}

/// Enumerates every way to split `target` more colored mana over the colored
/// slots from `color_index` on, pushing one plan per complete split.  Returns
/// false when the plan limit was hit and the search must stop.
fn enumerate_colored_payment_distributions(
    search: &PaymentSearch,
    plans: &mut Vec<PaymentPlan>,
    truncated: &mut bool,
    target: u32,
    color_index: usize,
    partial: ManaPool,
) -> (keep_going: bool)
    requires
        search.wf(),
        color_index <= 5,
        old(plans)@.len() <= PAYMENT_PLAN_LIMIT,
        partial.colorless == 0,
        forall|k: int| 0 <= k < color_index ==> #[trigger] partial.amt(k) <= search.remaining.amt(k),
        forall|k: int| color_index <= k < 5 ==> #[trigger] partial.amt(k) == 0,
        partial.sum_colored() + target == search.colored_spend,
    ensures
        ({
            let all = old(plans)@ + plans_of(
                search.cost,
                colored_distributions(search.remaining, target as int, color_index as int, partial),
                search.colorless_spend,
            );
            &&& final(plans)@ == capped(all)
            &&& *final(truncated) == (*old(truncated) || all.len() > PAYMENT_PLAN_LIMIT)
            &&& keep_going == (all.len() <= PAYMENT_PLAN_LIMIT)
        }),
        final(plans)@.len() <= PAYMENT_PLAN_LIMIT,
        old(plans)@.len() <= final(plans)@.len(),
        final(plans)@.subrange(0, old(plans)@.len() as int) == old(plans)@,
        plans_tail_ok(
            final(plans)@,
            old(plans)@.len() as int,
            search.available,
            search.cost,
            search.colored_spend as int,
        ),
        *old(truncated) ==> *final(truncated),
        !keep_going ==> *final(truncated),
        *final(truncated) ==> *old(truncated) || final(plans)@.len() == PAYMENT_PLAN_LIMIT,
    decreases 5 - color_index,
{
    if color_index == 5 {
        if target != 0 {
            return true;
        }
        if plans.len() == PAYMENT_PLAN_LIMIT {
            *truncated = true;
            proof {
                let produced = plans_of(
                    search.cost,
                    colored_distributions(search.remaining, target as int, color_index as int, partial),
                    search.colorless_spend,
                );
                assert((plans@ + produced).take(PAYMENT_PLAN_LIMIT as int) =~= plans@);
            }
            return false;
        }
        let generic_paid = partial.with_slot(5, search.colorless_spend);
        assert(generic_paid.sum_colored() == partial.sum_colored());
        let paid = match search.colored_required.checked_add(generic_paid) {
            Some(p) => p,
            None => {
                proof {
                    assert forall|k: int| 0 <= k < 6 implies search.colored_required.amt(k)
                        + generic_paid.amt(k) <= u32::MAX by {
                        if k < 5 {
                            assert(generic_paid.amt(k) == partial.amt(k));
                        }
                    }
                }
                *truncated = true;
                return false;
            },
        };
        let waste_score = generic_paid.colored_total();
        let plan = PaymentPlan {
            paid,
            generic_paid,
            generic_required: search.generic_required,
            x_value: search.x_value,
            waste_score,
        };
        proof {
            assert forall|k: int| 0 <= k < 6 implies search.available.amt(k) >= paid.amt(k) by {
                assert(search.remaining.amt(k) == search.available.amt(k)
                    - search.colored_required.amt(k));
                assert(paid.amt(k) == search.colored_required.amt(k) + generic_paid.amt(k));
                if k < 5 {
                    assert(generic_paid.amt(k) == partial.amt(k));
                    assert(partial.amt(k) <= search.remaining.amt(k));
                }
            }
            assert(is_valid_payment(search.available, search.cost, plan));
        }
        let ghost old_plans = plans@;
        plans.push(plan);
        proof {
            assert(plans@.subrange(0, old_plans.len() as int) =~= old_plans);
            assert(paid == pool_add(search.colored_required, generic_paid)) by {
                assert(paid.amt(0) == search.colored_required.amt(0) + generic_paid.amt(0));
                assert(paid.amt(1) == search.colored_required.amt(1) + generic_paid.amt(1));
                assert(paid.amt(2) == search.colored_required.amt(2) + generic_paid.amt(2));
                assert(paid.amt(3) == search.colored_required.amt(3) + generic_paid.amt(3));
                assert(paid.amt(4) == search.colored_required.amt(4) + generic_paid.amt(4));
                assert(paid.amt(5) == search.colored_required.amt(5) + generic_paid.amt(5));
            }
            assert(plan == plan_for(search.cost, set_slot(partial, 5, search.colorless_spend)));
            assert(plans@ =~= old_plans + plans_of(
                search.cost,
                colored_distributions(search.remaining, target as int, color_index as int, partial),
                search.colorless_spend,
            ));
        }
        return true;
    }
    let kind_amount = search.remaining.slot_amount(color_index);
    let max_amount: u32 = if kind_amount < target {
        kind_amount
    } else {
        target
    };
    let ghost start_plans = plans@;
    let ghost start_truncated = *truncated;
    let mut amount: u64 = 0;
    while amount <= max_amount as u64
        invariant
            search.wf(),
            color_index < 5,
            max_amount <= target,
            max_amount <= search.remaining.amt(color_index as int),
            partial.colorless == 0,
            forall|k: int|
                0 <= k < color_index ==> #[trigger] partial.amt(k) <= search.remaining.amt(k),
            forall|k: int| color_index <= k < 5 ==> #[trigger] partial.amt(k) == 0,
            partial.sum_colored() + target == search.colored_spend,
            plans@.len() <= PAYMENT_PLAN_LIMIT,
            start_plans.len() <= plans@.len(),
            plans@.subrange(0, start_plans.len() as int) == start_plans,
            plans_tail_ok(
                plans@,
                start_plans.len() as int,
                search.available,
                search.cost,
                search.colored_spend as int,
            ),
            start_truncated ==> *truncated,
            *truncated ==> start_truncated || plans@.len() == PAYMENT_PLAN_LIMIT,
            start_plans == old(plans)@,
            start_truncated == *old(truncated),
            *truncated == start_truncated,
            amount <= max_amount as u64 + 1,
            max_amount == (if search.remaining.amt(color_index as int) < target {
                search.remaining.amt(color_index as int)
            } else {
                target as int
            }),
            plans@ == start_plans + plans_of(
                search.cost,
                colored_distributions_upto(
                    search.remaining,
                    target as int,
                    color_index as int,
                    partial,
                    amount as int,
                ),
                search.colorless_spend,
            ),
        decreases max_amount as u64 + 1 - amount,
    {
        let a = amount as u32;
        let next = partial.with_slot(color_index, a);
        assert(next.sum_colored() == partial.sum_colored() + a);
        let ghost before = plans@;
        let keep = enumerate_colored_payment_distributions(
            search,
            plans,
            truncated,
            target - a,
            color_index + 1,
            next,
        );
        proof {
            assert(plans@.subrange(0, start_plans.len() as int) =~= start_plans) by {
                assert(plans@.subrange(0, before.len() as int) == before);
                assert forall|i: int| 0 <= i < start_plans.len() implies plans@[i]
                    == start_plans[i] by {
                    assert(plans@.subrange(0, before.len() as int)[i] == before[i]);
                    assert(before.subrange(0, start_plans.len() as int)[i] == start_plans[i]);
                }
            }
            assert forall|i: int| start_plans.len() <= i < plans@.len() implies is_valid_payment(
                search.available,
                search.cost,
                #[trigger] plans@[i],
            ) && plans@[i].waste_score() == search.colored_spend by {
                if i < before.len() {
                    assert(plans@.subrange(0, before.len() as int)[i] == before[i]);
                }
            }
        }
        proof {
            let upto = colored_distributions_upto(
                search.remaining,
                target as int,
                color_index as int,
                partial,
                amount as int,
            );
            let child = colored_distributions(
                search.remaining,
                (target - a) as int,
                color_index + 1,
                next,
            );
            let grown = colored_distributions_upto(
                search.remaining,
                target as int,
                color_index as int,
                partial,
                amount + 1,
            );
            assert(grown == upto + child);
            lemma_plans_of_add(search.cost, upto, child, search.colorless_spend);
            let child_all = before + plans_of(search.cost, child, search.colorless_spend);
            let grown_all = start_plans + plans_of(search.cost, grown, search.colorless_spend);
            assert(child_all =~= grown_all);
            let whole = colored_distributions_upto(
                search.remaining,
                target as int,
                color_index as int,
                partial,
                max_amount + 1,
            );
            assert(colored_distributions(
                search.remaining,
                target as int,
                color_index as int,
                partial,
            ) == whole);
            if !keep {
                lemma_distributions_upto_prefix(
                    search.remaining,
                    target as int,
                    color_index as int,
                    partial,
                    amount + 1,
                    max_amount + 1,
                );
                let rest = whole.subrange(grown.len() as int, whole.len() as int);
                assert(whole =~= grown + rest);
                lemma_plans_of_add(search.cost, grown, rest, search.colorless_spend);
                let whole_all = start_plans + plans_of(search.cost, whole, search.colorless_spend);
                assert(whole_all.subrange(0, grown_all.len() as int) =~= grown_all);
                lemma_capped_prefix(grown_all, whole_all);
            }
        }
        if !keep {
            return false;
        }
        amount = amount + 1;
    }
    proof {
        assert(colored_distributions(search.remaining, target as int, color_index as int, partial)
            == colored_distributions_upto(
            search.remaining,
            target as int,
            color_index as int,
            partial,
            max_amount + 1,
        ));
    }
    true
}

/// The first plan of the enumeration, the one automatic payment picks, wastes
/// no more colored mana on generic costs than any valid payment of the cost.
pub proof fn lemma_first_plan_least_waste(available: ManaPool, cost: ManaCost, plan: PaymentPlan)
    requires
        is_valid_payment(available, cost, plan),
    ensures
        payment_plans_in_order(available, cost).len() > 0,
        payment_plans_in_order(available, cost)[0].waste_score() <= plan.waste_score(),
{
    lemma_payment_plans_complete(available, cost, plan);
    let plans = payment_plans_in_order(available, cost);
    let j = choose|j: int| 0 <= j < plans.len() && plans[j] == plan;
    if j > 0 {
        lemma_payment_plans_sound_and_distinct(available, cost);
        assert(plans[0].waste_score() <= plans[j].waste_score());
    }
}

/// The least colored mana any payment of `cost` out of `available` spends on
/// its generic part: what colorless mana cannot cover.
pub open spec fn least_generic_waste(available: ManaPool, cost: ManaCost) -> int {
    if generic_requirement(cost) > available.colorless {
        generic_requirement(cost) - available.colorless
    } else {
        0
    }
}

/// The first plan of the enumeration spends exactly the colored mana that
/// the available colorless mana cannot cover on the generic part.
pub proof fn lemma_first_plan_waste(available: ManaPool, cost: ManaCost)
    requires
        payment_plans_in_order(available, cost).len() > 0,
        generic_requirement(cost) <= u32::MAX,
    ensures
        payment_plans_in_order(available, cost)[0].waste_score() == least_generic_waste(available, cost),
{
    let colored = colored_requirement(cost);
    let g = generic_requirement(cost);
    let rem = pool_sub(available, colored);
    assert(available.covers(colored) && g <= rem.sum_all());
    assert(available.amt(0) >= colored.amt(0) && available.amt(1) >= colored.amt(1) && available.amt(2)
        >= colored.amt(2) && available.amt(3) >= colored.amt(3) && available.amt(4) >= colored.amt(4));
    let c = if g <= rem.colorless {
        g
    } else {
        rem.colorless as int
    };
    let k = g - c;
    let w = if k <= rem.white {
        k
    } else {
        rem.white as int
    };
    let u = if k - w <= rem.blue {
        k - w
    } else {
        rem.blue as int
    };
    let b = if k - w - u <= rem.black {
        k - w - u
    } else {
        rem.black as int
    };
    let rd = if k - w - u - b <= rem.red {
        k - w - u - b
    } else {
        rem.red as int
    };
    let gr = k - w - u - b - rd;
    let gp = ManaPool {
        white: w as u32,
        blue: u as u32,
        black: b as u32,
        red: rd as u32,
        green: gr as u32,
        colorless: c as u32,
    };
    let plan = PaymentPlan {
        paid: pool_add(colored, gp),
        generic_paid: gp,
        generic_required: g as u32,
        x_value: cost.x_value,
        waste_score: k as u32,
    };
    assert(plan.paid().is_sum_of(colored, gp));
    assert(available.covers(plan.paid()));
    assert(is_valid_payment(available, cost, plan));
    lemma_first_plan_least_waste(available, cost, plan);
    lemma_payment_plans_sound_and_distinct(available, cost);
    let first = payment_plans_in_order(available, cost)[0];
    assert(is_valid_payment(available, cost, first));
    assert(first.paid().amt(5) == colored.amt(5) + first.generic_paid().amt(5));
    assert(available.amt(5) >= first.paid().amt(5));
}

/// Returns all distinct payment plans up to [`PAYMENT_PLAN_LIMIT`].
///
/// Plans come in nondecreasing waste order: each plan spends as little colored
/// mana on generic costs as any plan after it.
pub fn enumerate_payment_plans(available: ManaPool, cost: ManaCost) -> (r: Result<
    PaymentEnumeration,
    PaymentError,
>)
    ensures
        !available.covers(colored_requirement(cost)) ==> (r matches Ok(e) && e.plans@.len()
            == 0 && !e.truncated),
        available.covers(colored_requirement(cost)) && generic_requirement(cost) > u32::MAX
            ==> r == Err::<PaymentEnumeration, PaymentError>(PaymentError::ManaValueOverflow),
        available.covers(colored_requirement(cost)) && generic_requirement(cost) <= u32::MAX
            ==> r is Ok,
        r matches Ok(e) ==> e.plans@ == capped(payment_plans_in_order(available, cost)) && e.truncated
            == (payment_plans_in_order(available, cost).len() > PAYMENT_PLAN_LIMIT),
        r matches Ok(e) ==> {
            &&& e.plans@.len() <= PAYMENT_PLAN_LIMIT
            &&& e.truncated ==> e.plans@.len() == PAYMENT_PLAN_LIMIT
            &&& forall|i: int|
                0 <= i < e.plans@.len() ==> is_valid_payment(available, cost, #[trigger] e.plans@[i])
            &&& forall|i: int, j: int|
                0 <= i <= j < e.plans@.len() ==> #[trigger] e.plans@[i].waste_score()
                    <= #[trigger] e.plans@[j].waste_score()
            &&& forall|i: int, j: int|
                0 <= i < j < e.plans@.len() ==> payment_before(#[trigger] e.plans@[i], #[trigger] e.plans@[j])
        },
{
    proof {
        lemma_payment_plans_ascending(available, cost);
    }
    let colored_required = cost.colored_pool();
    if !available.contains_at_least(colored_required) {
        return Ok(PaymentEnumeration { plans: Vec::new(), truncated: false });
    }
    let generic_required = match cost.generic_total() {
        Ok(v) => v,
        Err(e) => return Err(e),
    };
    let remaining = match available.checked_sub(colored_required) {
        Some(p) => p,
        None => return Ok(PaymentEnumeration { plans: Vec::new(), truncated: false }),
    };
    proof {
        assert(remaining.amt(0) == available.amt(0) - colored_required.amt(0));
        assert(remaining.amt(1) == available.amt(1) - colored_required.amt(1));
        assert(remaining.amt(2) == available.amt(2) - colored_required.amt(2));
        assert(remaining.amt(3) == available.amt(3) - colored_required.amt(3));
        assert(remaining.amt(4) == available.amt(4) - colored_required.amt(4));
        assert(remaining.amt(5) == available.amt(5) - colored_required.amt(5));
        assert(remaining == pool_sub(available, colored_required));
    }
    if generic_required as u64 > remaining.total_wide() {
        return Ok(PaymentEnumeration { plans: Vec::new(), truncated: false });
    }
    let colored_available = remaining.colored_total_wide();
    let max_colored_spend: u32 = if (generic_required as u64) < colored_available {
        generic_required
    } else {
        colored_available as u32
    };
    let mut plans: Vec<PaymentPlan> = Vec::new();
    let mut truncated = false;
    let mut colored_spend: u64 = 0;
    while colored_spend <= max_colored_spend as u64
        invariant
            colored_required == colored_requirement(cost),
            remaining.is_diff_of(available, colored_required),
            generic_required == generic_requirement(cost),
            max_colored_spend <= generic_required,
            plans@.len() <= PAYMENT_PLAN_LIMIT,
            truncated ==> plans@.len() == PAYMENT_PLAN_LIMIT,
            forall|i: int|
                0 <= i < plans@.len() ==> is_valid_payment(available, cost, #[trigger] plans@[i]),
            forall|i: int| 0 <= i < plans@.len() ==> #[trigger] plans@[i].waste_score() < colored_spend,
            forall|i: int, j: int|
                0 <= i <= j < plans@.len() ==> #[trigger] plans@[i].waste_score()
                    <= #[trigger] plans@[j].waste_score(),
            remaining == pool_sub(available, colored_required),
            colored_spend <= max_colored_spend as u64 + 1,
            max_colored_spend == (if generic_required < remaining.sum_colored() {
                generic_required as int
            } else {
                remaining.sum_colored()
            }),
            !truncated ==> plans@ == plans_for_spends_below(available, cost, colored_spend as int),
            truncated ==> colored_spend == max_colored_spend as u64 + 1 && plans@ == capped(
                plans_for_spends_below(available, cost, max_colored_spend + 1),
            ) && plans_for_spends_below(available, cost, max_colored_spend + 1).len()
                > PAYMENT_PLAN_LIMIT,
        decreases max_colored_spend as u64 + 1 - colored_spend,
    {
        let spend = colored_spend as u32;
        let colorless_spend = generic_required - spend;
        if colorless_spend > remaining.get(ManaKind::Colorless) {
            proof {
                assert(plans_for_spend(available, cost, spend as int) =~= Seq::<PaymentPlan>::empty());
                assert(plans_for_spends_below(available, cost, spend + 1) =~= plans_for_spends_below(
                    available,
                    cost,
                    spend as int,
                ));
            }
            colored_spend = colored_spend + 1;
            continue;
        }
        let search = PaymentSearch {
            available,
            cost,
            remaining,
            colorless_spend,
            colored_spend: spend,
            colored_required,
            generic_required,
            x_value: cost.x_value(),
        };
        let ghost before = plans@;
        let keep = enumerate_colored_payment_distributions(
            &search,
            &mut plans,
            &mut truncated,
            spend,
            0,
            ManaPool::empty(),
        );
        proof {
            assert forall|i: int| 0 <= i < plans@.len() implies is_valid_payment(
                available,
                cost,
                #[trigger] plans@[i],
            ) && plans@[i].waste_score() <= spend by {
                if i < before.len() {
                    assert(plans@.subrange(0, before.len() as int)[i] == before[i]);
                }
            }
            assert forall|i: int, j: int|
                0 <= i <= j < plans@.len() implies #[trigger] plans@[i].waste_score()
                <= #[trigger] plans@[j].waste_score() by {
                if j < before.len() {
                    assert(plans@.subrange(0, before.len() as int)[i] == before[i]);
                    assert(plans@.subrange(0, before.len() as int)[j] == before[j]);
                } else if i < before.len() {
                    assert(plans@.subrange(0, before.len() as int)[i] == before[i]);
                }
            }
        }
        proof {
            assert(plans_for_spends_below(available, cost, spend + 1) =~= before + plans_for_spend(
                available,
                cost,
                spend as int,
            ));
            if !keep {
                lemma_spends_below_prefix(available, cost, spend + 1, max_colored_spend + 1);
                lemma_capped_prefix(
                    plans_for_spends_below(available, cost, spend + 1),
                    plans_for_spends_below(available, cost, max_colored_spend + 1),
                );
            }
        }
        if !keep {
            colored_spend = max_colored_spend as u64 + 1;
        } else {
            colored_spend = colored_spend + 1;
        }
    }
    proof {
        assert(payment_plans_in_order(available, cost) == plans_for_spends_below(
            available,
            cost,
            max_colored_spend + 1,
        ));
    }
    Ok(PaymentEnumeration { plans, truncated })
}

/// Returns the preferred automatic payment plan, if the cost can be paid.
pub fn auto_payment_plan(available: ManaPool, cost: ManaCost) -> (r: Result<
    Option<PaymentPlan>,
    PaymentError,
>)
    ensures
        !available.covers(colored_requirement(cost)) ==> r == Ok::<
            Option<PaymentPlan>,
            PaymentError,
        >(None),
        available.covers(colored_requirement(cost)) && generic_requirement(cost) > u32::MAX
            ==> r == Err::<Option<PaymentPlan>, PaymentError>(PaymentError::ManaValueOverflow),
        available.covers(colored_requirement(cost)) && generic_requirement(cost) <= u32::MAX
            ==> r is Ok,
        r matches Ok(Some(plan)) ==> is_valid_payment(available, cost, plan),
        r matches Ok(Some(plan)) ==> plan.waste_score() == least_generic_waste(available, cost),
        r matches Ok(best) ==> (if payment_plans_in_order(available, cost).len() == 0 {
            best is None
        } else {
            best == Some(payment_plans_in_order(available, cost)[0])
        }),
{
    match enumerate_payment_plans(available, cost) {
        Ok(e) => {
            proof {
                if payment_plans_in_order(available, cost).len() > 0 {
                    lemma_first_plan_waste(available, cost);
                }
            }
            Ok(e.best())
        },
        Err(e) => Err(e),
    }
}


/// One object that can be auto-tapped for mana.
#[derive(Clone, Copy, Debug, PartialEq, Eq, Structural, Hash)]
pub struct ManaSource {
    pub object: ObjectId,
    pub produces: ManaPool,
}

impl ManaSource {
    /// Creates a mana source from an object and one deterministic output.
    pub fn new(object: ObjectId, produces: ManaPool) -> (r: Self)
        ensures
            r.object == object && r.produces == produces,
    {
        ManaSource { object, produces }
    }

    /// Returns the object that would be tapped.
    pub fn object(self) -> (r: ObjectId)
        ensures
            r == self.object,
    {
        self.object
    }

    /// Returns the mana this source produces when tapped.
    pub fn produces(self) -> (r: ManaPool)
        ensures
            r == self.produces,
    {
        self.produces
    }
}

/// One tap chosen by an auto-tap payment plan.
#[derive(Clone, Copy, Debug, PartialEq, Eq, Structural, Hash)]
pub struct ManaTap {
    pub source: ObjectId,
    pub produced: ManaPool,
}

impl ManaTap {
    /// Returns the tapped source object.
    pub fn source(self) -> (r: ObjectId)
        ensures
            r == self.source,
    {
        self.source
    }

    /// Returns the mana produced by this tap.
    pub fn produced(self) -> (r: ManaPool)
        ensures
            r == self.produced,
    {
        self.produced
    }
}

/// A source-level auto-tap choice plus the resulting payment plan.
#[derive(Clone, Debug, PartialEq, Eq)]
pub struct AutoTapPaymentPlan {
    pub taps: Vec<ManaTap>,
    pub produced: ManaPool,
    pub payment: PaymentPlan,
    pub unspent: ManaPool,
    pub total_waste_score: u32,
}

impl AutoTapPaymentPlan {
    /// Returns taps in deterministic source order.
    pub fn taps(&self) -> (r: &[ManaTap])
        ensures
            r@ == self.taps@,
    {
        self.taps.as_slice()
    }

    /// Returns all mana produced by the taps.
    pub fn produced(&self) -> (r: ManaPool)
        ensures
            r == self.produced,
    {
        self.produced
    }

    /// Returns the pool-level payment plan chosen from the produced mana.
    pub fn payment(&self) -> (r: PaymentPlan)
        ensures
            r == self.payment,
    {
        self.payment
    }

    /// Returns mana that would remain floating after the payment.
    pub fn unspent(&self) -> (r: ManaPool)
        ensures
            r == self.unspent,
    {
        self.unspent
    }

    /// Returns the source-level ordering score used by auto-tap.
    pub fn total_waste_score(&self) -> (r: u32)
        ensures
            r == self.total_waste_score,
    {
        self.total_waste_score
    }

    /// Returns a copy of this plan with the same taps and payment.
    pub fn duplicate(&self) -> (r: Self)
        ensures
            r.taps@ == self.taps@,
            r.produced == self.produced && r.payment == self.payment,
            r.unspent == self.unspent && r.total_waste_score == self.total_waste_score,
    {
        AutoTapPaymentPlan {
            taps: copy_taps(&self.taps),
            produced: self.produced,
            payment: self.payment,
            unspent: self.unspent,
            total_waste_score: self.total_waste_score,
        }
    }
}

/// A bounded set of source-level auto-tap plans.
#[derive(Clone, Debug, PartialEq, Eq)]
pub struct AutoTapPaymentEnumeration {
    pub plans: Vec<AutoTapPaymentPlan>,
    pub truncated: bool,
}

impl AutoTapPaymentEnumeration {
    /// Returns auto-tap plans in deterministic preference order.
    pub fn plans(&self) -> (r: &[AutoTapPaymentPlan])
        ensures
            r@ == self.plans@,
    {
        self.plans.as_slice()
    }

    /// Returns true when more than [`PAYMENT_PLAN_LIMIT`] plans exist.
    pub fn truncated(&self) -> (r: bool)
        ensures
            r == self.truncated,
    {
        self.truncated
    }

    /// Returns the first and therefore preferred auto-tap plan.
    pub fn best(&self) -> (r: Option<&AutoTapPaymentPlan>)
        ensures
            self.plans@.len() == 0 ==> r is None,
            self.plans@.len() > 0 ==> r == Some(&self.plans@[0]),
    {
        if self.plans.len() > 0 {
            Some(&self.plans[0])
        } else {
            None
        }
    }
}

/// Slot `k` of the mana produced by all of `taps` together.
pub open spec fn tap_sum(taps: Seq<ManaTap>, k: int) -> int
    decreases taps.len(),
{
    if taps.len() == 0 {
        0
    } else {
        tap_sum(taps.drop_last(), k) + taps.last().produced.amt(k)
    }
}

/// The source that a tap stands for.
pub open spec fn tapped_source(tap: ManaTap) -> ManaSource {
    ManaSource { object: tap.source, produces: tap.produced }
}

/// Every tap in `taps` taps one of `sources`.
pub open spec fn taps_drawn_from(sources: Seq<ManaSource>, taps: Seq<ManaTap>) -> bool {
    forall|t: int| 0 <= t < taps.len() ==> sources.contains(tapped_source(#[trigger] taps[t]))
}

/// `plan` pays `cost` correctly out of the mana its taps produce, records the
/// floating remainder, and scores itself as waste plus floating mana.
pub open spec fn is_sound_auto_tap(cost: ManaCost, plan: AutoTapPaymentPlan) -> bool {
    &&& is_valid_payment(plan.produced, cost, plan.payment)
    &&& plan.unspent.is_diff_of(plan.produced, plan.payment.paid())
    &&& plan.total_waste_score == plan.payment.waste_score() + plan.unspent.sum_all()
    &&& forall|k: int| 0 <= k < 6 ==> plan.produced.amt(k) == tap_sum(plan.taps@, k)
}

/// What an auto-tap plan holds, with its taps as a sequence: the taps, the
/// mana they produce, the payment, the floating mana and the total waste.
pub type TapPlanView = (Seq<ManaTap>, ManaPool, PaymentPlan, ManaPool, u32);

/// The value of an auto-tap plan.
pub open spec fn tap_plan_view(plan: AutoTapPaymentPlan) -> TapPlanView {
    (plan.taps@, plan.produced, plan.payment, plan.unspent, plan.total_waste_score)
}

/// The values of a list of auto-tap plans.
pub open spec fn plan_views(plans: Seq<AutoTapPaymentPlan>) -> Seq<TapPlanView> {
    plans.map_values(|plan: AutoTapPaymentPlan| tap_plan_view(plan))
}

/// Three-way comparison of two integers: -1, 0 or 1.
pub open spec fn three_way(a: int, b: int) -> int {
    if a < b {
        -1
    } else if a == b {
        0
    } else {
        1
    }
}

/// Compares two pools slot by slot: white, blue, black, red, green,
/// colorless.
pub open spec fn pool_order(a: ManaPool, b: ManaPool) -> int {
    if a.white != b.white {
        three_way(a.white as int, b.white as int)
    } else if a.blue != b.blue {
        three_way(a.blue as int, b.blue as int)
    } else if a.black != b.black {
        three_way(a.black as int, b.black as int)
    } else if a.red != b.red {
        three_way(a.red as int, b.red as int)
    } else if a.green != b.green {
        three_way(a.green as int, b.green as int)
    } else {
        three_way(a.colorless as int, b.colorless as int)
    }
}

/// Compares two sources by object, then by the mana they produce.
pub open spec fn source_order(a: ManaSource, b: ManaSource) -> int {
    if a.object.0 != b.object.0 {
        three_way(a.object.0 as int, b.object.0 as int)
    } else {
        pool_order(a.produces, b.produces)
    }
}

/// Compares two taps by source object, then by the mana produced.
pub open spec fn tap_order(a: ManaTap, b: ManaTap) -> int {
    if a.source.0 != b.source.0 {
        three_way(a.source.0 as int, b.source.0 as int)
    } else {
        pool_order(a.produced, b.produced)
    }
}

/// Compares two tap lists tap by tap, then by length.
pub open spec fn taps_order(a: Seq<ManaTap>, b: Seq<ManaTap>) -> int
    decreases a.len(),
{
    if a.len() == 0 || b.len() == 0 {
        three_way(a.len() as int, b.len() as int)
    } else if tap_order(a[0], b[0]) != 0 {
        tap_order(a[0], b[0])
    } else {
        taps_order(a.drop_first(), b.drop_first())
    }
}

/// Auto-tap preference: total waste, number of taps, payment waste,
/// floating mana, generic payment, and finally the taps themselves.
pub open spec fn tap_plan_order(a: TapPlanView, b: TapPlanView) -> int {
    if a.4 != b.4 {
        three_way(a.4 as int, b.4 as int)
    } else if a.0.len() != b.0.len() {
        three_way(a.0.len() as int, b.0.len() as int)
    } else if a.2.waste_score() != b.2.waste_score() {
        three_way(a.2.waste_score() as int, b.2.waste_score() as int)
    } else if pool_order(a.3, b.3) != 0 {
        pool_order(a.3, b.3)
    } else if pool_order(a.2.generic_paid(), b.2.generic_paid()) != 0 {
        pool_order(a.2.generic_paid(), b.2.generic_paid())
    } else {
        taps_order(a.0, b.0)
    }
}

/// Pools are totally ordered slot by slot: swapping the arguments flips the
/// sign, only equal pools compare equal, and the order is transitive.
pub proof fn lemma_pool_order_total(a: ManaPool, b: ManaPool, c: ManaPool)
    ensures
        pool_order(a, b) == -pool_order(b, a),
        pool_order(a, b) == 0 <==> a == b,
        pool_order(a, b) <= 0 && pool_order(b, c) <= 0 ==> pool_order(a, c) <= 0,
        -1 <= pool_order(a, b) <= 1,
{
}

/// Taps are totally ordered by source, then by the mana produced.
pub proof fn lemma_tap_order_total(a: ManaTap, b: ManaTap, c: ManaTap)
    ensures
        tap_order(a, b) == -tap_order(b, a),
        tap_order(a, b) == 0 <==> a == b,
        tap_order(a, b) <= 0 && tap_order(b, c) <= 0 ==> tap_order(a, c) <= 0,
        -1 <= tap_order(a, b) <= 1,
{
    lemma_pool_order_total(a.produced, b.produced, c.produced);
}

/// Tap lists are totally ordered tap by tap, a list before its extensions:
/// swapping the arguments flips the sign, only equal lists compare equal,
/// and the order is transitive.
pub proof fn lemma_taps_order_total(a: Seq<ManaTap>, b: Seq<ManaTap>, c: Seq<ManaTap>)
    ensures
        taps_order(a, b) == -taps_order(b, a),
        taps_order(a, b) == 0 <==> a == b,
        taps_order(a, b) <= 0 && taps_order(b, c) <= 0 ==> taps_order(a, c) <= 0,
        -1 <= taps_order(a, b) <= 1,
    decreases a.len(),
{
    if a.len() > 0 && b.len() > 0 {
        let cc = if c.len() > 0 {
            c.drop_first()
        } else {
            c
        };
        lemma_taps_order_total(a.drop_first(), b.drop_first(), cc);
        lemma_tap_order_total(a[0], b[0], if c.len() > 0 {
            c[0]
        } else {
            a[0]
        });
        if c.len() > 0 {
            lemma_taps_order_total(a.drop_first(), b.drop_first(), c.drop_first());
            lemma_tap_order_total(a[0], b[0], c[0]);
        }
        if taps_order(a, b) == 0 {
            assert(a =~= seq![a[0]] + a.drop_first());
            assert(b =~= seq![b[0]] + b.drop_first());
        }
        if a == b {
            assert(a.drop_first() == b.drop_first());
        }
    } else {
        if a.len() == 0 && b.len() == 0 {
            assert(a =~= b);
        }
    }
}

/// Auto-tap plans are totally preordered by preference: swapping the
/// arguments flips the sign and the order is transitive; plans that compare
/// equal have the same taps, total waste, payment waste, floating mana and
/// generic payment.
pub proof fn lemma_tap_plan_order_total(a: TapPlanView, b: TapPlanView, c: TapPlanView)
    ensures
        tap_plan_order(a, b) == -tap_plan_order(b, a),
        tap_plan_order(a, b) <= 0 && tap_plan_order(b, c) <= 0 ==> tap_plan_order(a, c) <= 0,
        tap_plan_order(a, b) == 0 ==> a.0 == b.0 && a.4 == b.4 && a.2.waste_score() == b.2.waste_score() && a.3
            == b.3 && a.2.generic_paid() == b.2.generic_paid(),
        -1 <= tap_plan_order(a, b) <= 1,
{
    lemma_pool_order_total(a.3, b.3, c.3);
    lemma_pool_order_total(a.2.generic_paid(), b.2.generic_paid(), c.2.generic_paid());
    lemma_taps_order_total(a.0, b.0, c.0);
}

/// Each plan of `plans` sorts no later than every plan after it.
pub open spec fn tap_plans_sorted(plans: Seq<TapPlanView>) -> bool {
    forall|i: int, j: int| 0 <= i < j < plans.len() ==> tap_plan_order(#[trigger] plans[i], #[trigger] plans[j]) <= 0
}

/// The insertion point of `x` searching from `p` is past every plan that
/// `x` does not sort strictly before, and before one it does.
proof fn lemma_tap_plan_insertion_point(out: Seq<TapPlanView>, x: TapPlanView, p: int)
    requires
        0 <= p <= out.len(),
    ensures
        p <= tap_plan_insertion_point(out, x, p) <= out.len(),
        forall|k: int| p <= k < tap_plan_insertion_point(out, x, p) ==> tap_plan_order(x, #[trigger] out[k]) >= 0,
        tap_plan_insertion_point(out, x, p) < out.len() ==> tap_plan_order(
            x,
            out[tap_plan_insertion_point(out, x, p)],
        ) < 0,
    decreases out.len() - p,
{
    if p < out.len() && tap_plan_order(x, out[p]) >= 0 {
        lemma_tap_plan_insertion_point(out, x, p + 1);
    }
}

/// Sorting the plans puts them in preference order.
pub proof fn lemma_tap_plans_in_order_sorted(plans: Seq<TapPlanView>)
    ensures
        tap_plans_sorted(tap_plans_in_order(plans)),
        tap_plans_in_order(plans).len() == plans.len(),
    decreases plans.len(),
{
    if plans.len() > 0 {
        let rest = tap_plans_in_order(plans.drop_last());
        let x = plans.last();
        lemma_tap_plans_in_order_sorted(plans.drop_last());
        lemma_tap_plan_insertion_point(rest, x, 0);
        let q = tap_plan_insertion_point(rest, x, 0);
        let out = rest.insert(q, x);
        assert(out == tap_plans_in_order(plans));
        assert forall|i: int, j: int| 0 <= i < j < out.len() implies tap_plan_order(
            #[trigger] out[i],
            #[trigger] out[j],
        ) <= 0 by {
            if j < q {
                assert(out[i] == rest[i] && out[j] == rest[j]);
            } else if j == q {
                assert(out[i] == rest[i]);
                lemma_tap_plan_order_total(x, rest[i], x);
            } else if i < q {
                assert(out[i] == rest[i] && out[j] == rest[j - 1]);
            } else if i == q {
                assert(out[j] == rest[j - 1]);
                if q < j - 1 {
                    assert(tap_plan_order(rest[q], rest[j - 1]) <= 0);
                }
                lemma_tap_plan_order_total(x, rest[q], rest[j - 1]);
            } else {
                assert(out[i] == rest[i - 1] && out[j] == rest[j - 1]);
            }
        }
    }
}

/// Leaving out repeats of a sorted list keeps it sorted, takes nothing that
/// was not there, and leaves no plan next to an equal one.
pub proof fn lemma_without_repeats_sorted(plans: Seq<TapPlanView>)
    requires
        tap_plans_sorted(plans),
    ensures
        tap_plans_sorted(without_repeats(plans)),
        forall|i: int| 0 <= i < without_repeats(plans).len() ==> plans.contains(#[trigger] without_repeats(plans)[i]),
        forall|i: int|
            0 <= i < without_repeats(plans).len() - 1 ==> #[trigger] without_repeats(plans)[i]
                != without_repeats(plans)[i + 1],
        without_repeats(plans).len() > 0 ==> without_repeats(plans).last() == plans.last(),
    decreases plans.len(),
{
    if plans.len() > 0 {
        let init = plans.drop_last();
        assert(tap_plans_sorted(init)) by {
            assert forall|i: int, j: int| 0 <= i < j < init.len() implies tap_plan_order(
                #[trigger] init[i],
                #[trigger] init[j],
            ) <= 0 by {
                assert(init[i] == plans[i] && init[j] == plans[j]);
            }
        }
        lemma_without_repeats_sorted(init);
        let rest = without_repeats(init);
        let x = plans.last();
        assert forall|i: int| 0 <= i < rest.len() implies tap_plan_order(#[trigger] rest[i], x) <= 0 by {
            let w = choose|w: int| 0 <= w < init.len() && init[w] == rest[i];
            assert(plans[w] == init[w]);
            assert(plans[plans.len() - 1] == x);
        }
        assert forall|i: int| 0 <= i < rest.len() implies plans.contains(#[trigger] rest[i]) by {
            let w = choose|w: int| 0 <= w < init.len() && init[w] == rest[i];
            assert(plans[w] == init[w]);
        }
        if !(rest.len() > 0 && rest.last() == x) {
            let out = rest.push(x);
            assert(plans.contains(x)) by {
                assert(plans[plans.len() - 1] == x);
            }
            assert forall|i: int, j: int| 0 <= i < j < out.len() implies tap_plan_order(
                #[trigger] out[i],
                #[trigger] out[j],
            ) <= 0 by {
                assert(out[i] == rest[i]);
            }
            assert forall|i: int| 0 <= i < out.len() - 1 implies #[trigger] out[i] != out[i + 1] by {
                assert(out[i] == rest[i]);
                if i + 1 < rest.len() {
                    assert(out[i + 1] == rest[i + 1]);
                } else {
                    assert(rest[i] == rest.last());
                }
            }
        }
    }
}

/// Two sound plans for one cost that compare equal are the same plan.
pub proof fn lemma_sound_plans_equal_when_order_zero(cost: ManaCost, a: AutoTapPaymentPlan, b: AutoTapPaymentPlan)
    requires
        is_sound_auto_tap(cost, a),
        is_sound_auto_tap(cost, b),
        tap_plan_order(tap_plan_view(a), tap_plan_view(b)) == 0,
    ensures
        tap_plan_view(a) == tap_plan_view(b),
{
    lemma_tap_plan_order_total(tap_plan_view(a), tap_plan_view(b), tap_plan_view(a));
    assert(a.taps@ == b.taps@);
    assert forall|k: int| 0 <= k < 6 implies a.produced.amt(k) == b.produced.amt(k) by {
        assert(a.produced.amt(k) == tap_sum(a.taps@, k));
        assert(b.produced.amt(k) == tap_sum(b.taps@, k));
    }
    assert(a.produced.amt(0) == b.produced.amt(0) && a.produced.amt(1) == b.produced.amt(1) && a.produced.amt(2)
        == b.produced.amt(2) && a.produced.amt(3) == b.produced.amt(3) && a.produced.amt(4) == b.produced.amt(4)
        && a.produced.amt(5) == b.produced.amt(5));
    assert(a.produced == b.produced);
    let ap = a.payment;
    let bp = b.payment;
    assert forall|k: int| 0 <= k < 6 implies ap.paid().amt(k) == bp.paid().amt(k) by {
        assert(ap.paid().amt(k) == colored_requirement(cost).amt(k) + ap.generic_paid().amt(k));
        assert(bp.paid().amt(k) == colored_requirement(cost).amt(k) + bp.generic_paid().amt(k));
    }
    assert(ap.paid().amt(0) == bp.paid().amt(0) && ap.paid().amt(1) == bp.paid().amt(1) && ap.paid().amt(2)
        == bp.paid().amt(2) && ap.paid().amt(3) == bp.paid().amt(3) && ap.paid().amt(4) == bp.paid().amt(4)
        && ap.paid().amt(5) == bp.paid().amt(5));
    assert(ap == bp);
}

/// The tap of `source`.
pub open spec fn tap_of(source: ManaSource) -> ManaTap {
    ManaTap { source: source.object, produced: source.produces }
}

/// `taps` taps sources of `sources` below position `bound`, in their order,
/// each at most once.
pub open spec fn taps_pick_from(taps: Seq<ManaTap>, sources: Seq<ManaSource>, bound: int) -> bool {
    exists|idx: Seq<int>|
        #![trigger idx.len()]
        idx.len() == taps.len() && (forall|k: int|
            0 <= k < idx.len() ==> 0 <= #[trigger] idx[k] < bound && taps[k] == tap_of(sources[idx[k]]))
            && forall|a: int, b: int| 0 <= a < b < idx.len() ==> #[trigger] idx[a] < #[trigger] idx[b]
}

/// Every candidate reached from `taps`, chosen below `i`, taps the sources in
/// their order, each at most once.
proof fn lemma_tap_candidates_pick(
    sources: Seq<ManaSource>,
    cost: ManaCost,
    i: int,
    produced: ManaPool,
    taps: Seq<ManaTap>,
)
    requires
        0 <= i <= sources.len(),
        taps_pick_from(taps, sources, i),
    ensures
        tap_candidates(sources, cost, i, produced, taps) matches Ok(found) ==> forall|k: int|
            0 <= k < found.0.len() ==> taps_pick_from(#[trigger] found.0[k].0, sources, sources.len() as int),
    decreases sources.len() - i,
{
    if i >= sources.len() {
        if let Ok(found) = tap_candidates(sources, cost, i, produced, taps) {
            assert forall|k: int| 0 <= k < found.0.len() implies taps_pick_from(
                #[trigger] found.0[k].0,
                sources,
                sources.len() as int,
            ) by {
                assert(found.0[k].0 == taps);
            }
        }
    } else {
        lemma_tap_candidates_pick(sources, cost, i + 1, produced, taps);
        let idx = choose|idx: Seq<int>|
            #![trigger idx.len()]
            idx.len() == taps.len() && (forall|k: int|
                0 <= k < idx.len() ==> 0 <= #[trigger] idx[k] < i && taps[k] == tap_of(sources[idx[k]]))
                && forall|a: int, b: int| 0 <= a < b < idx.len() ==> #[trigger] idx[a] < #[trigger] idx[b];
        let grown = taps.push(tap_of(sources[i]));
        let gidx = idx.push(i);
        assert(gidx.len() == grown.len());
        assert forall|k: int| 0 <= k < gidx.len() implies 0 <= #[trigger] gidx[k] < i + 1 && grown[k] == tap_of(
            sources[gidx[k]],
        ) by {
            if k < idx.len() {
                assert(gidx[k] == idx[k] && grown[k] == taps[k]);
            }
        }
        assert forall|a: int, b: int| 0 <= a < b < gidx.len() implies #[trigger] gidx[a] < #[trigger] gidx[b] by {
            if b < idx.len() {
                assert(gidx[a] == idx[a] && gidx[b] == idx[b]);
            } else {
                assert(gidx[a] == idx[a]);
            }
        }
        assert(taps_pick_from(grown, sources, i + 1));
        let source = sources[i];
        if !pool_add_overflows(produced, source.produces) {
            assert(grown == taps.push(ManaTap { source: source.object, produced: source.produces }));
            lemma_tap_candidates_pick(sources, cost, i + 1, pool_add(produced, source.produces), grown);
        }
        if let Ok(found) = tap_candidates(sources, cost, i, produced, taps) {
            let without = tap_candidates(sources, cost, i + 1, produced, taps)->Ok_0;
            let with = tap_candidates(
                sources,
                cost,
                i + 1,
                pool_add(produced, source.produces),
                grown,
            )->Ok_0;
            assert(found.0 == without.0 + with.0);
            assert forall|k: int| 0 <= k < found.0.len() implies taps_pick_from(
                #[trigger] found.0[k].0,
                sources,
                sources.len() as int,
            ) by {
                if k < without.0.len() {
                    assert(found.0[k] == without.0[k]);
                } else {
                    assert(found.0[k] == with.0[k - without.0.len()]);
                }
            }
        }
    }
}

/// The taps of the sources below `i` that `chosen` marks, in source order.
pub open spec fn chosen_taps(sources: Seq<ManaSource>, chosen: Seq<bool>, i: int) -> Seq<ManaTap>
    decreases i,
{
    if i <= 0 {
        Seq::empty()
    } else if chosen[i - 1] {
        chosen_taps(sources, chosen, i - 1).push(tap_of(sources[i - 1]))
    } else {
        chosen_taps(sources, chosen, i - 1)
    }
}

/// `m` is the mana `taps` produce, the candidates for it are found without
/// error, and each of them is among `found`.
pub open spec fn pool_candidates_within(taps: Seq<ManaTap>, m: ManaPool, cost: ManaCost, found: Seq<TapPlanView>) -> bool {
    &&& forall|k: int| 0 <= k < 6 ==> m.amt(k) == tap_sum(taps, k)
    &&& candidates_for_pool(taps, m, cost) is Ok
    &&& forall|j: int|
        0 <= j < candidates_for_pool(taps, m, cost)->Ok_0.0.len() ==> found.contains(
            #[trigger] candidates_for_pool(taps, m, cost)->Ok_0.0[j],
        )
}

/// Every candidate for the sources `chosen` marks is among the candidates
/// the search from position `i` finds, once the taps chosen below `i` are
/// in hand.
proof fn lemma_tap_candidates_complete(
    sources: Seq<ManaSource>,
    cost: ManaCost,
    chosen: Seq<bool>,
    i: int,
    produced: ManaPool,
    taps: Seq<ManaTap>,
)
    requires
        0 <= i <= sources.len(),
        chosen.len() == sources.len(),
        taps == chosen_taps(sources, chosen, i),
        forall|k: int| 0 <= k < 6 ==> produced.amt(k) == tap_sum(taps, k),
        tap_candidates(sources, cost, i, produced, taps) is Ok,
    ensures
        exists|m: ManaPool|
            #[trigger] pool_candidates_within(
                chosen_taps(sources, chosen, sources.len() as int),
                m,
                cost,
                tap_candidates(sources, cost, i, produced, taps)->Ok_0.0,
            ),
    decreases sources.len() - i,
{
    let all = chosen_taps(sources, chosen, sources.len() as int);
    if i >= sources.len() {
        assert(taps == all);
        let found = tap_candidates(sources, cost, i, produced, taps)->Ok_0;
        let c = candidates_for_pool(all, produced, cost)->Ok_0;
        assert forall|j: int| 0 <= j < c.0.len() implies found.0.contains(#[trigger] c.0[j]) by {
            assert(found.0[j] == c.0[j]);
        }
        assert(pool_candidates_within(all, produced, cost, found.0));
    } else {
        let found = tap_candidates(sources, cost, i, produced, taps)->Ok_0;
        let without = tap_candidates(sources, cost, i + 1, produced, taps)->Ok_0;
        let source = sources[i];
        let grown = taps.push(ManaTap { source: source.object, produced: source.produces });
        let next = pool_add(produced, source.produces);
        let with = tap_candidates(sources, cost, i + 1, next, grown)->Ok_0;
        assert(found.0 == without.0 + with.0);
        if chosen[i] {
            assert(chosen_taps(sources, chosen, i + 1) == grown);
            assert forall|k: int| 0 <= k < 6 implies next.amt(k) == tap_sum(grown, k) by {
                assert(grown.drop_last() =~= taps);
                assert(!pool_add_overflows(produced, source.produces));
            }
            lemma_tap_candidates_complete(sources, cost, chosen, i + 1, next, grown);
            let m = choose|m: ManaPool| #[trigger] pool_candidates_within(all, m, cost, with.0);
            let c = candidates_for_pool(all, m, cost)->Ok_0;
            assert forall|j: int| 0 <= j < c.0.len() implies found.0.contains(#[trigger] c.0[j]) by {
                assert(with.0.contains(c.0[j]));
                let w = choose|w: int| 0 <= w < with.0.len() && with.0[w] == c.0[j];
                assert(found.0[without.0.len() + w] == with.0[w]);
            }
            assert(pool_candidates_within(all, m, cost, found.0));
        } else {
            assert(chosen_taps(sources, chosen, i + 1) == taps);
            lemma_tap_candidates_complete(sources, cost, chosen, i + 1, produced, taps);
            let m = choose|m: ManaPool| #[trigger] pool_candidates_within(all, m, cost, without.0);
            let c = candidates_for_pool(all, m, cost)->Ok_0;
            assert forall|j: int| 0 <= j < c.0.len() implies found.0.contains(#[trigger] c.0[j]) by {
                assert(without.0.contains(c.0[j]));
                let w = choose|w: int| 0 <= w < without.0.len() && without.0[w] == c.0[j];
                assert(found.0[w] == without.0[w]);
            }
            assert(pool_candidates_within(all, m, cost, found.0));
        }
    }
}

/// Leaving out repeats keeps the first plan first.
proof fn lemma_without_repeats_first(plans: Seq<TapPlanView>)
    requires
        plans.len() > 0,
    ensures
        without_repeats(plans).len() > 0,
        without_repeats(plans)[0] == plans[0],
    decreases plans.len(),
{
    if plans.len() > 1 {
        lemma_without_repeats_first(plans.drop_last());
        assert(plans.drop_last()[0] == plans[0]);
    } else {
        assert(without_repeats(plans.drop_last()).len() == 0);
    }
}

/// The waste plus floating mana of a valid payment out of `m`: payments of
/// one cost out of one pool all float the same amount, so the one with the
/// least waste scores least.
proof fn lemma_payment_total(m: ManaPool, cost: ManaCost, p: PaymentPlan)
    requires
        is_valid_payment(m, cost, p),
    ensures
        pool_sub(m, p.paid()).sum_all() == m.sum_all() - colored_requirement(cost).sum_all() - generic_requirement(cost),
{
    ManaPool::lemma_sum_fields(p.paid(), colored_requirement(cost), p.generic_paid());
    assert(m.amt(0) >= p.paid().amt(0) && m.amt(1) >= p.paid().amt(1) && m.amt(2) >= p.paid().amt(2) && m.amt(3)
        >= p.paid().amt(3) && m.amt(4) >= p.paid().amt(4) && m.amt(5) >= p.paid().amt(5));
}

/// No choice of sources and no valid payment out of the mana they produce
/// wastes less, counting floating mana, than the first auto-tap plan.
pub proof fn lemma_auto_tap_first_is_optimal(
    sources: Seq<ManaSource>,
    cost: ManaCost,
    chosen: Seq<bool>,
    m: ManaPool,
    q: PaymentPlan,
)
    requires
        auto_tap_result(sources, cost) is Ok,
        chosen.len() == sources_in_order(sources).len(),
        forall|k: int|
            0 <= k < 6 ==> m.amt(k) == tap_sum(
                chosen_taps(sources_in_order(sources), chosen, sources_in_order(sources).len() as int),
                k,
            ),
        is_valid_payment(m, cost, q),
    ensures
        auto_tap_result(sources, cost)->Ok_0.0.len() > 0,
        auto_tap_result(sources, cost)->Ok_0.0[0].4 <= q.waste_score() + pool_sub(m, q.paid()).sum_all(),
{
    let ordered = sources_in_order(sources);
    let taps = chosen_taps(ordered, chosen, ordered.len() as int);
    let found = tap_candidates(ordered, cost, 0, ManaPool::zero(), Seq::empty())->Ok_0;
    assert(chosen_taps(ordered, chosen, 0) == Seq::<ManaTap>::empty());
    lemma_tap_candidates_complete(ordered, cost, chosen, 0, ManaPool::zero(), Seq::empty());
    let m2 = choose|m2: ManaPool| #[trigger] pool_candidates_within(taps, m2, cost, found.0);
    assert(m2.amt(0) == m.amt(0) && m2.amt(1) == m.amt(1) && m2.amt(2) == m.amt(2) && m2.amt(3) == m.amt(3)
        && m2.amt(4) == m.amt(4) && m2.amt(5) == m.amt(5));
    assert(m2 == m);
    ManaPool::lemma_sum_fields(q.paid(), colored_requirement(cost), q.generic_paid());
    assert(m.covers(colored_requirement(cost))) by {
        assert forall|k: int| 0 <= k < 6 implies m.amt(k) >= colored_requirement(cost).amt(k) by {
            assert(q.paid().amt(k) == colored_requirement(cost).amt(k) + q.generic_paid().amt(k));
        }
    }
    let all = payment_plans_in_order(m, cost);
    lemma_payment_plans_complete(m, cost, q);
    lemma_first_plan_least_waste(m, cost, q);
    lemma_payment_plans_sound_and_distinct(m, cost);
    let c = candidates_for_pool(taps, m, cost)->Ok_0;
    assert(capped(all)[0] == all[0]);
    let x = c.0[0];
    assert(x == tap_candidate(taps, m, all[0]));
    lemma_payment_total(m, cost, all[0]);
    lemma_payment_total(m, cost, q);
    assert(!waste_overflows(m, capped(all)[0]));
    assert(x.4 <= q.waste_score() + pool_sub(m, q.paid()).sum_all());
    assert(found.0.contains(x));
    let in_order = tap_plans_in_order(found.0);
    lemma_tap_plans_in_order_multiset(found.0);
    lemma_tap_plans_in_order_sorted(found.0);
    assert(in_order.contains(x)) by {
        broadcast use vstd::seq_lib::to_multiset_contains;

        assert(found.0.to_multiset().count(x) > 0);
    }
    let w = choose|w: int| 0 <= w < in_order.len() && in_order[w] == x;
    if w > 0 {
        assert(tap_plan_order(in_order[0], in_order[w]) <= 0);
    }
    assert(in_order[0].4 <= x.4);
    lemma_without_repeats_first(in_order);
}

/// Sorting plans keeps each of them as often as it was given.
proof fn lemma_tap_plans_in_order_multiset(plans: Seq<TapPlanView>)
    ensures
        tap_plans_in_order(plans).to_multiset() == plans.to_multiset(),
    decreases plans.len(),
{
    broadcast use vstd::seq_lib::to_multiset_insert, vstd::seq_lib::to_multiset_build;

    if plans.len() == 0 {
        assert(tap_plans_in_order(plans) =~= plans);
    } else {
        let rest = tap_plans_in_order(plans.drop_last());
        let x = plans.last();
        lemma_tap_plans_in_order_multiset(plans.drop_last());
        lemma_tap_plan_insertion_point(rest, x, 0);
        assert(plans =~= plans.drop_last().push(x));
    }
}

/// Sources are totally ordered by object, then by the mana they produce.
pub proof fn lemma_source_order_total(a: ManaSource, b: ManaSource, c: ManaSource)
    ensures
        source_order(a, b) == -source_order(b, a),
        source_order(a, b) == 0 <==> a == b,
        source_order(a, b) <= 0 && source_order(b, c) <= 0 ==> source_order(a, c) <= 0,
        -1 <= source_order(a, b) <= 1,
{
    lemma_pool_order_total(a.produces, b.produces, c.produces);
}

/// `a` sorts no later than `b`.
pub open spec fn source_leq(a: ManaSource, b: ManaSource) -> bool {
    source_order(a, b) <= 0
}

proof fn lemma_source_leq_total()
    ensures
        vstd::relations::total_ordering(|a: ManaSource, b: ManaSource| source_leq(a, b)),
{
    let leq = |a: ManaSource, b: ManaSource| source_leq(a, b);
    assert forall|x: ManaSource| #[trigger] leq(x, x) by {
        lemma_source_order_total(x, x, x);
    }
    assert forall|x: ManaSource, y: ManaSource| #[trigger] leq(x, y) && #[trigger] leq(y, x) implies x == y by {
        lemma_source_order_total(x, y, x);
    }
    assert forall|x: ManaSource, y: ManaSource, z: ManaSource| #[trigger] leq(x, y) && #[trigger] leq(y, z) implies leq(
        x,
        z,
    ) by {
        lemma_source_order_total(x, y, z);
    }
    assert forall|x: ManaSource, y: ManaSource| #[trigger] leq(x, y) || #[trigger] leq(y, x) by {
        lemma_source_order_total(x, y, x);
    }
}

/// The insertion point of `x` searching from `p` is past every source that
/// `x` does not sort strictly before, and before one it does.
proof fn lemma_source_insertion_point(out: Seq<ManaSource>, x: ManaSource, p: int)
    requires
        0 <= p <= out.len(),
    ensures
        p <= source_insertion_point(out, x, p) <= out.len(),
        forall|k: int| p <= k < source_insertion_point(out, x, p) ==> source_order(x, #[trigger] out[k]) >= 0,
        source_insertion_point(out, x, p) < out.len() ==> source_order(
            x,
            out[source_insertion_point(out, x, p)],
        ) < 0,
    decreases out.len() - p,
{
    if p < out.len() && source_order(x, out[p]) >= 0 {
        lemma_source_insertion_point(out, x, p + 1);
    }
}

/// Sorting the sources puts them in order.
proof fn lemma_sources_in_order_sorted(sources: Seq<ManaSource>)
    ensures
        vstd::relations::sorted_by(sources_in_order(sources), |a: ManaSource, b: ManaSource| source_leq(a, b)),
    decreases sources.len(),
{
    if sources.len() > 0 {
        let rest = sources_in_order(sources.drop_last());
        let x = sources.last();
        lemma_sources_in_order_sorted(sources.drop_last());
        lemma_source_insertion_point(rest, x, 0);
        let q = source_insertion_point(rest, x, 0);
        let out = rest.insert(q, x);
        assert(out == sources_in_order(sources));
        let leq = |a: ManaSource, b: ManaSource| source_leq(a, b);
        assert forall|i: int, j: int| 0 <= i < j < rest.len() implies source_leq(#[trigger] rest[i], #[trigger] rest[j]) by {
            assert(leq(rest[i], rest[j]));
        }
        assert forall|i: int, j: int| 0 <= i < j < out.len() implies source_leq(#[trigger] out[i], #[trigger] out[j]) by {
            if j < q {
                assert(out[i] == rest[i] && out[j] == rest[j]);
                assert(source_leq(rest[i], rest[j]));
            } else if j == q {
                assert(out[i] == rest[i]);
                lemma_source_order_total(x, rest[i], x);
            } else if i < q {
                assert(out[i] == rest[i] && out[j] == rest[j - 1]);
                assert(source_leq(rest[i], rest[j - 1]));
            } else if i == q {
                assert(out[j] == rest[j - 1]);
                if q < j - 1 {
                    assert(source_leq(rest[q], rest[j - 1]));
                }
                lemma_source_order_total(x, rest[q], rest[j - 1]);
            } else {
                assert(out[i] == rest[i - 1] && out[j] == rest[j - 1]);
                assert(source_leq(rest[i - 1], rest[j - 1]));
            }
        }
    }
}

/// Sorting the sources keeps each of them as often as it was given.
proof fn lemma_sources_in_order_multiset(sources: Seq<ManaSource>)
    ensures
        sources_in_order(sources).to_multiset() == sources.to_multiset(),
    decreases sources.len(),
{
    broadcast use vstd::seq_lib::to_multiset_insert, vstd::seq_lib::to_multiset_build;

    if sources.len() == 0 {
        assert(sources_in_order(sources) =~= sources);
    } else {
        let rest = sources_in_order(sources.drop_last());
        let x = sources.last();
        lemma_sources_in_order_multiset(sources.drop_last());
        lemma_source_insertion_point(rest, x, 0);
        assert(sources =~= sources.drop_last().push(x));
    }
}

/// Auto-tap planning does not depend on the order in which the sources are
/// given: any two lists holding the same sources, as often each, give the
/// same plans, the same truncation and the same errors.
pub proof fn lemma_auto_tap_ignores_source_order(a: Seq<ManaSource>, b: Seq<ManaSource>, cost: ManaCost)
    requires
        a.to_multiset() == b.to_multiset(),
    ensures
        sources_in_order(a) == sources_in_order(b),
        auto_tap_result(a, cost) == auto_tap_result(b, cost),
{
    lemma_source_leq_total();
    lemma_sources_in_order_sorted(a);
    lemma_sources_in_order_sorted(b);
    lemma_sources_in_order_multiset(a);
    lemma_sources_in_order_multiset(b);
    vstd::seq_lib::lemma_sorted_unique(
        sources_in_order(a),
        sources_in_order(b),
        |x: ManaSource, y: ManaSource| source_leq(x, y),
    );
}

/// Where `x` goes among the sorted sources `out`, searching from `p`: before
/// the first one it sorts strictly before, else at the end.
pub open spec fn source_insertion_point(out: Seq<ManaSource>, x: ManaSource, p: int) -> int
    decreases out.len() - p,
{
    if p < 0 || p >= out.len() {
        out.len() as int
    } else if source_order(x, out[p]) < 0 {
        p
    } else {
        source_insertion_point(out, x, p + 1)
    }
}

/// The sources sorted stably by object and produced mana.
pub open spec fn sources_in_order(sources: Seq<ManaSource>) -> Seq<ManaSource>
    decreases sources.len(),
{
    if sources.len() == 0 {
        Seq::empty()
    } else {
        let rest = sources_in_order(sources.drop_last());
        rest.insert(source_insertion_point(rest, sources.last(), 0), sources.last())
    }
}

/// Where `x` goes among the sorted plans `out`, searching from `p`: before
/// the first one it sorts strictly before, else at the end.
pub open spec fn tap_plan_insertion_point(out: Seq<TapPlanView>, x: TapPlanView, p: int) -> int
    decreases out.len() - p,
{
    if p < 0 || p >= out.len() {
        out.len() as int
    } else if tap_plan_order(x, out[p]) < 0 {
        p
    } else {
        tap_plan_insertion_point(out, x, p + 1)
    }
}

/// The plans sorted stably by auto-tap preference.
pub open spec fn tap_plans_in_order(plans: Seq<TapPlanView>) -> Seq<TapPlanView>
    decreases plans.len(),
{
    if plans.len() == 0 {
        Seq::empty()
    } else {
        let rest = tap_plans_in_order(plans.drop_last());
        rest.insert(tap_plan_insertion_point(rest, plans.last(), 0), plans.last())
    }
}

/// The plans with each one equal to the one just before it left out.
pub open spec fn without_repeats(plans: Seq<TapPlanView>) -> Seq<TapPlanView>
    decreases plans.len(),
{
    if plans.len() == 0 {
        Seq::empty()
    } else {
        let rest = without_repeats(plans.drop_last());
        if rest.len() > 0 && rest.last() == plans.last() {
            rest
        } else {
            rest.push(plans.last())
        }
    }
}

/// The candidate plan that taps `taps`, producing `produced`, and pays with
/// `payment`.
pub open spec fn tap_candidate(taps: Seq<ManaTap>, produced: ManaPool, payment: PaymentPlan) -> TapPlanView {
    let unspent = pool_sub(produced, payment.paid());
    (taps, produced, payment, unspent, (payment.waste_score() + unspent.sum_all()) as u32)
}

/// A payment out of `produced` whose waste plus floating mana exceeds `u32`.
pub open spec fn waste_overflows(produced: ManaPool, payment: PaymentPlan) -> bool {
    payment.waste_score() + pool_sub(produced, payment.paid()).sum_all() > u32::MAX
}

/// The candidates for one choice of taps producing `produced`: one per
/// enumerated payment of `cost` out of that pool, in order; and whether
/// that enumeration was cut short.
pub open spec fn candidates_for_pool(taps: Seq<ManaTap>, produced: ManaPool, cost: ManaCost) -> Result<
    (Seq<TapPlanView>, bool),
    PaymentError,
> {
    if !produced.covers(colored_requirement(cost)) {
        Ok((Seq::empty(), false))
    } else if generic_requirement(cost) > u32::MAX {
        Err(PaymentError::ManaValueOverflow)
    } else {
        let all = payment_plans_in_order(produced, cost);
        let payments = capped(all);
        if exists|j: int| 0 <= j < payments.len() && waste_overflows(produced, #[trigger] payments[j]) {
            Err(PaymentError::ManaValueOverflow)
        } else {
            Ok(
                (
                    payments.map_values(|payment: PaymentPlan| tap_candidate(taps, produced, payment)),
                    all.len() > PAYMENT_PLAN_LIMIT,
                ),
            )
        }
    }
}

/// Adding the mana of `b` to `a` overflows some slot.
pub open spec fn pool_add_overflows(a: ManaPool, b: ManaPool) -> bool {
    exists|k: int| 0 <= k < 6 && #[trigger] a.amt(k) + b.amt(k) > u32::MAX
}

/// Every candidate plan over the sources from `i` on added to `taps`, which
/// produce `produced`, in search order (first without source `i`, then with
/// it), and whether any payment enumeration was cut short; or the first
/// overflow met.
pub open spec fn tap_candidates(
    sources: Seq<ManaSource>,
    cost: ManaCost,
    i: int,
    produced: ManaPool,
    taps: Seq<ManaTap>,
) -> Result<(Seq<TapPlanView>, bool), PaymentError>
    decreases sources.len() - i,
{
    if i < 0 || i >= sources.len() {
        candidates_for_pool(taps, produced, cost)
    } else {
        match tap_candidates(sources, cost, i + 1, produced, taps) {
            Err(e) => Err(e),
            Ok(without) => {
                let source = sources[i];
                if pool_add_overflows(produced, source.produces) {
                    Err(PaymentError::ManaValueOverflow)
                } else {
                    match tap_candidates(
                        sources,
                        cost,
                        i + 1,
                        pool_add(produced, source.produces),
                        taps.push(ManaTap { source: source.object, produced: source.produces }),
                    ) {
                        Err(e) => Err(e),
                        Ok(with) => Ok((without.0 + with.0, without.1 || with.1)),
                    }
                }
            },
        }
    }
}

/// The auto-tap plans for `sources` and `cost`: every candidate over every
/// subset of the sources (taken in source order), sorted by preference,
/// without repeats, at most `PAYMENT_PLAN_LIMIT` of them; and whether the
/// list was cut short anywhere.
pub open spec fn auto_tap_result(sources: Seq<ManaSource>, cost: ManaCost) -> Result<
    (Seq<TapPlanView>, bool),
    PaymentError,
> {
    match tap_candidates(sources_in_order(sources), cost, 0, ManaPool::zero(), Seq::empty()) {
        Err(e) => Err(e),
        Ok(found) => {
            let distinct = without_repeats(tap_plans_in_order(found.0));
            if distinct.len() > PAYMENT_PLAN_LIMIT {
                Ok((distinct.take(PAYMENT_PLAN_LIMIT as int), true))
            } else {
                Ok((distinct, found.1))
            }
        },
    }
}

/// A pool whose slots are the sums of two pools' slots is their sum.
pub proof fn lemma_pool_sum(p: ManaPool, a: ManaPool, b: ManaPool)
    requires
        p.is_sum_of(a, b),
    ensures
        p == pool_add(a, b),
        !pool_add_overflows(a, b),
{
    assert(p.amt(0) == a.amt(0) + b.amt(0));
    assert(p.amt(1) == a.amt(1) + b.amt(1));
    assert(p.amt(2) == a.amt(2) + b.amt(2));
    assert(p.amt(3) == a.amt(3) + b.amt(3));
    assert(p.amt(4) == a.amt(4) + b.amt(4));
    assert(p.amt(5) == a.amt(5) + b.amt(5));
}

/// A pool whose slots are the differences of two pools' slots is their
/// difference.
proof fn lemma_pool_difference(p: ManaPool, a: ManaPool, b: ManaPool)
    requires
        p.is_diff_of(a, b),
    ensures
        p == pool_sub(a, b),
{
    assert(p.amt(0) == a.amt(0) - b.amt(0));
    assert(p.amt(1) == a.amt(1) - b.amt(1));
    assert(p.amt(2) == a.amt(2) - b.amt(2));
    assert(p.amt(3) == a.amt(3) - b.amt(3));
    assert(p.amt(4) == a.amt(4) - b.amt(4));
    assert(p.amt(5) == a.amt(5) - b.amt(5));
}

/// Copies a list of taps.
fn copy_taps(taps: &Vec<ManaTap>) -> (r: Vec<ManaTap>)
    ensures
        r@ == taps@,
{
    let mut r: Vec<ManaTap> = Vec::new();
    let mut i: usize = 0;
    while i < taps.len()
        invariant
            i <= taps@.len(),
            r@ == taps@.subrange(0, i as int),
        decreases taps@.len() - i,
    {
        r.push(taps[i]);
        i = i + 1;
        assert(r@ =~= taps@.subrange(0, i as int));
    }
    assert(r@ =~= taps@);
    r
}

/// Three-way comparison of two integers: negative, zero or positive.
pub(crate) fn compare_u64(a: u64, b: u64) -> (r: i8)
    ensures
        r == three_way(a as int, b as int),
        r < 0 <==> a < b,
        r == 0 <==> a == b,
        r > 0 <==> a > b,
{
    if a < b {
        -1
    } else if a == b {
        0
    } else {
        1
    }
}

/// Lexicographic three-way comparison of two pools in slot order.
fn compare_pools(a: ManaPool, b: ManaPool) -> (r: i8)
    ensures
        r == pool_order(a, b),
        r == 0 <==> a == b,
{
    let c = compare_u64(a.white as u64, b.white as u64);
    if c != 0 {
        return c;
    }
    let c = compare_u64(a.blue as u64, b.blue as u64);
    if c != 0 {
        return c;
    }
    let c = compare_u64(a.black as u64, b.black as u64);
    if c != 0 {
        return c;
    }
    let c = compare_u64(a.red as u64, b.red as u64);
    if c != 0 {
        return c;
    }
    let c = compare_u64(a.green as u64, b.green as u64);
    if c != 0 {
        return c;
    }
    compare_u64(a.colorless as u64, b.colorless as u64)
}

/// Orders tap lists by source object then produced mana, tap by tap, and
/// then by length.
fn compare_mana_taps(left: &Vec<ManaTap>, right: &Vec<ManaTap>) -> (r: i8)
    ensures
        r == taps_order(left@, right@),
{
    assert(left@.skip(0) =~= left@ && right@.skip(0) =~= right@);
    let mut i: usize = 0;
    while i < left.len() && i < right.len()
        invariant
            i <= left@.len(),
            i <= right@.len(),
            taps_order(left@, right@) == taps_order(left@.skip(i as int), right@.skip(i as int)),
        decreases left@.len() - i,
    {
        let l = left[i];
        let t = right[i];
        let mut c = compare_u64(l.source.0 as u64, t.source.0 as u64);
        if c == 0 {
            c = compare_pools(l.produced, t.produced);
        }
        proof {
            let ls = left@.skip(i as int);
            let rs = right@.skip(i as int);
            assert(ls[0] == l && rs[0] == t);
            assert(ls.drop_first() =~= left@.skip(i + 1));
            assert(rs.drop_first() =~= right@.skip(i + 1));
        }
        if c != 0 {
            return c;
        }
        i = i + 1;
    }
    proof {
        let ls = left@.skip(i as int);
        let rs = right@.skip(i as int);
        assert(ls.len() == 0 || rs.len() == 0);
    }
    compare_u64(left.len() as u64, right.len() as u64)
}

/// Auto-tap preference order: total waste, number of taps, payment waste,
/// floating mana, generic payment, and finally the taps themselves.
fn compare_auto_tap_plans(left: &AutoTapPaymentPlan, right: &AutoTapPaymentPlan) -> (r: i8)
    ensures
        r == tap_plan_order(tap_plan_view(*left), tap_plan_view(*right)),
        r < 0 ==> left.total_waste_score <= right.total_waste_score,
        r >= 0 ==> left.total_waste_score >= right.total_waste_score,
{
    let c = compare_u64(left.total_waste_score as u64, right.total_waste_score as u64);
    if c != 0 {
        return c;
    }
    let c = compare_u64(left.taps.len() as u64, right.taps.len() as u64);
    if c != 0 {
        return c;
    }
    let c = compare_u64(left.payment.waste_score() as u64, right.payment.waste_score() as u64);
    if c != 0 {
        return c;
    }
    let c = compare_pools(left.unspent, right.unspent);
    if c != 0 {
        return c;
    }
    let c = compare_pools(left.payment.generic_paid(), right.payment.generic_paid());
    if c != 0 {
        return c;
    }
    compare_mana_taps(&left.taps, &right.taps)
}

/// Two tap lists compare equal exactly when they are the same list.
proof fn lemma_taps_order_zero(a: Seq<ManaTap>, b: Seq<ManaTap>)
    ensures
        taps_order(a, b) == 0 <==> a == b,
    decreases a.len(),
{
    if a.len() == 0 || b.len() == 0 {
        if a.len() == 0 && b.len() == 0 {
            assert(a =~= b);
        }
    } else {
        lemma_taps_order_zero(a.drop_first(), b.drop_first());
        if tap_order(a[0], b[0]) == 0 && a.drop_first() == b.drop_first() {
            assert(a[0] == b[0]);
            assert forall|i: int| 0 <= i < a.len() implies a[i] == b[i] by {
                if i > 0 {
                    assert(a[i] == a.drop_first()[i - 1]);
                    assert(b[i] == b.drop_first()[i - 1]);
                }
            }
            assert(a =~= b);
        }
        if a == b {
            assert(a.drop_first() == b.drop_first());
        }
    }
}

/// True when two auto-tap plans are equal field by field.
fn same_auto_tap_plan(left: &AutoTapPaymentPlan, right: &AutoTapPaymentPlan) -> (r: bool)
    ensures
        r == (tap_plan_view(*left) == tap_plan_view(*right)),
{
    proof {
        lemma_taps_order_zero(left.taps@, right.taps@);
    }
    left.produced == right.produced && left.payment == right.payment && left.unspent
        == right.unspent && left.total_waste_score == right.total_waste_score
        && compare_mana_taps(&left.taps, &right.taps) == 0
}

/// Sorts sources by object then produced mana, keeping equal sources in
/// their input order.
fn sort_sources(sources: &[ManaSource]) -> (r: Vec<ManaSource>)
    ensures
        r@ == sources_in_order(sources@),
        r@.len() == sources@.len(),
        forall|i: int| 0 <= i < r@.len() ==> sources@.contains(#[trigger] r@[i]),
{
    let mut out: Vec<ManaSource> = Vec::new();
    let mut i: usize = 0;
    assert(sources@.take(0) =~= Seq::<ManaSource>::empty());
    while i < sources.len()
        invariant
            i <= sources@.len(),
            out@.len() == i,
            out@ == sources_in_order(sources@.take(i as int)),
            forall|j: int| 0 <= j < out@.len() ==> sources@.contains(#[trigger] out@[j]),
        decreases sources@.len() - i,
    {
        let x = sources[i];
        let mut p: usize = 0;
        while p < out.len()
            invariant
                p <= out@.len(),
                source_insertion_point(out@, x, 0) == source_insertion_point(out@, x, p as int),
            ensures
                source_insertion_point(out@, x, 0) == p,
            decreases out@.len() - p,
        {
            let y = out[p];
            let mut c = compare_u64(x.object.0 as u64, y.object.0 as u64);
            if c == 0 {
                c = compare_pools(x.produces, y.produces);
            }
            if c < 0 {
                break;
            }
            p = p + 1;
        }
        let ghost before = out@;
        assert(sources@[i as int] == x);
        out.insert(p, x);
        assert forall|j: int| 0 <= j < out@.len() implies sources@.contains(#[trigger] out@[j]) by {
            if j < p {
                assert(out@[j] == before[j]);
            } else if j > p {
                assert(out@[j] == before[j - 1]);
            }
        }
        proof {
            let next = sources@.take(i + 1);
            assert(next.drop_last() =~= sources@.take(i as int));
            assert(next.last() == x);
        }
        i = i + 1;
    }
    assert(sources@.take(sources@.len() as int) =~= sources@);
    out
}

/// Sorts candidate plans stably by [`compare_auto_tap_plans`].
fn sort_auto_tap_plans(cost: Ghost<ManaCost>, sources: Ghost<Seq<ManaSource>>, candidates: Vec<
    AutoTapPaymentPlan,
>) -> (r: Vec<AutoTapPaymentPlan>)
    requires
        forall|i: int|
            0 <= i < candidates@.len() ==> is_sound_auto_tap(cost@, #[trigger] candidates@[i])
                && taps_drawn_from(sources@, candidates@[i].taps@),
    ensures
        plan_views(r@) == tap_plans_in_order(plan_views(candidates@)),
        forall|i: int|
            0 <= i < r@.len() ==> is_sound_auto_tap(cost@, #[trigger] r@[i]) && taps_drawn_from(
                sources@,
                r@[i].taps@,
            ),
        forall|i: int, j: int|
            0 <= i <= j < r@.len() ==> #[trigger] r@[i].total_waste_score
                <= #[trigger] r@[j].total_waste_score,
{
    let ghost orig = plan_views(candidates@);
    let ghost mut done: int = 0;
    let mut input = candidates;
    let mut out: Vec<AutoTapPaymentPlan> = Vec::new();
    assert(orig.skip(0) =~= orig);
    assert(orig.take(0) =~= Seq::<TapPlanView>::empty());
    assert(plan_views(out@) =~= Seq::<TapPlanView>::empty());
    while input.len() > 0
        invariant
            0 <= done <= orig.len(),
            plan_views(input@) == orig.skip(done),
            plan_views(out@) == tap_plans_in_order(orig.take(done)),
            forall|i: int|
                0 <= i < input@.len() ==> is_sound_auto_tap(cost@, #[trigger] input@[i])
                    && taps_drawn_from(sources@, input@[i].taps@),
            forall|i: int|
                0 <= i < out@.len() ==> is_sound_auto_tap(cost@, #[trigger] out@[i])
                    && taps_drawn_from(sources@, out@[i].taps@),
            forall|i: int, j: int|
                0 <= i <= j < out@.len() ==> #[trigger] out@[i].total_waste_score
                    <= #[trigger] out@[j].total_waste_score,
        decreases input@.len(),
    {
        let ghost before_input = input@;
        let x = input.remove(0);
        assert(x == before_input[0]);
        proof {
            assert(plan_views(before_input)[0] == tap_plan_view(x));
            assert(plan_views(input@) =~= plan_views(before_input).drop_first());
            assert(orig.skip(done).drop_first() =~= orig.skip(done + 1));
            assert(orig[done] == tap_plan_view(x));
        }
        assert forall|i: int| 0 <= i < input@.len() implies is_sound_auto_tap(
            cost@,
            #[trigger] input@[i],
        ) && taps_drawn_from(sources@, input@[i].taps@) by {
            assert(input@[i] == before_input[i + 1]);
        }
        let ghost outv = plan_views(out@);
        let mut p: usize = 0;
        let mut found = false;
        while p < out.len() && !found
            invariant
                p <= out@.len(),
                outv == plan_views(out@),
                !found ==> tap_plan_insertion_point(outv, tap_plan_view(x), 0)
                    == tap_plan_insertion_point(outv, tap_plan_view(x), p as int),
                found ==> tap_plan_insertion_point(outv, tap_plan_view(x), 0) == p,
                forall|q: int| 0 <= q < p ==> #[trigger] out@[q].total_waste_score <= x.total_waste_score,
                found ==> p < out@.len() && x.total_waste_score <= out@[p as int].total_waste_score,
            decreases out@.len() - p + (if found {
                0int
            } else {
                1int
            }),
        {
            assert(outv[p as int] == tap_plan_view(out@[p as int]));
            if compare_auto_tap_plans(&x, &out[p]) < 0 {
                found = true;
            } else {
                p = p + 1;
            }
        }
        assert(tap_plan_insertion_point(outv, tap_plan_view(x), 0) == p);
        assert(p < out@.len() ==> x.total_waste_score <= out@[p as int].total_waste_score);
        let ghost before = out@;
        out.insert(p, x);
        proof {
            assert(plan_views(out@) =~= outv.insert(p as int, tap_plan_view(x)));
            let next = orig.take(done + 1);
            assert(next.drop_last() =~= orig.take(done));
            assert(next.last() == tap_plan_view(x));
            done = done + 1;
        }
        assert forall|i: int|
            0 <= i < out@.len() implies is_sound_auto_tap(cost@, #[trigger] out@[i])
            && taps_drawn_from(sources@, out@[i].taps@) by {
            if i < p {
                assert(out@[i] == before[i]);
            } else if i > p {
                assert(out@[i] == before[i - 1]);
            }
        }
        assert forall|i: int, j: int|
            0 <= i <= j < out@.len() implies #[trigger] out@[i].total_waste_score
            <= #[trigger] out@[j].total_waste_score by {
            if i < p {
                assert(out@[i] == before[i]);
            } else if i > p {
                assert(out@[i] == before[i - 1]);
            }
            if j < p {
                assert(out@[j] == before[j]);
            } else if j > p {
                assert(out@[j] == before[j - 1]);
                if i == p && p < before.len() {
                    assert(before[p as int].total_waste_score <= before[j - 1].total_waste_score);
                }
            }
        }
    }
    assert(orig.skip(done).len() == 0);
    assert(orig.take(done) =~= orig);
    out
}

/// Drops each plan equal to the one kept just before it.
fn dedup_auto_tap_plans(cost: Ghost<ManaCost>, sources: Ghost<Seq<ManaSource>>, candidates: Vec<
    AutoTapPaymentPlan,
>) -> (r: Vec<AutoTapPaymentPlan>)
    requires
        forall|i: int|
            0 <= i < candidates@.len() ==> is_sound_auto_tap(cost@, #[trigger] candidates@[i])
                && taps_drawn_from(sources@, candidates@[i].taps@),
        forall|i: int, j: int|
            0 <= i <= j < candidates@.len() ==> #[trigger] candidates@[i].total_waste_score
                <= #[trigger] candidates@[j].total_waste_score,
    ensures
        plan_views(r@) == without_repeats(plan_views(candidates@)),
        r@.len() <= candidates@.len(),
        forall|i: int|
            0 <= i < r@.len() ==> is_sound_auto_tap(cost@, #[trigger] r@[i]) && taps_drawn_from(
                sources@,
                r@[i].taps@,
            ),
        forall|i: int, j: int|
            0 <= i <= j < r@.len() ==> #[trigger] r@[i].total_waste_score
                <= #[trigger] r@[j].total_waste_score,
{
    let ghost given = candidates@;
    let ghost orig = plan_views(candidates@);
    let ghost mut done: int = 0;
    let mut input = candidates;
    let mut out: Vec<AutoTapPaymentPlan> = Vec::new();
    assert(orig.skip(0) =~= orig);
    assert(orig.take(0) =~= Seq::<TapPlanView>::empty());
    assert(plan_views(out@) =~= Seq::<TapPlanView>::empty());
    while input.len() > 0
        invariant
            0 <= done <= orig.len(),
            plan_views(input@) == orig.skip(done),
            plan_views(out@) == without_repeats(orig.take(done)),
            out@.len() + input@.len() <= given.len(),
            forall|i: int|
                0 <= i < input@.len() ==> is_sound_auto_tap(cost@, #[trigger] input@[i])
                    && taps_drawn_from(sources@, input@[i].taps@),
            forall|i: int, j: int|
                0 <= i <= j < input@.len() ==> #[trigger] input@[i].total_waste_score
                    <= #[trigger] input@[j].total_waste_score,
            forall|i: int|
                0 <= i < out@.len() ==> is_sound_auto_tap(cost@, #[trigger] out@[i])
                    && taps_drawn_from(sources@, out@[i].taps@),
            forall|i: int, j: int|
                0 <= i <= j < out@.len() ==> #[trigger] out@[i].total_waste_score
                    <= #[trigger] out@[j].total_waste_score,
            out@.len() > 0 && input@.len() > 0 ==> out@.last().total_waste_score
                <= input@[0].total_waste_score,
        decreases input@.len(),
    {
        let ghost before_input = input@;
        let x = input.remove(0);
        assert(x == before_input[0]);
        assert forall|i: int| 0 <= i < input@.len() implies is_sound_auto_tap(
            cost@,
            #[trigger] input@[i],
        ) && taps_drawn_from(sources@, input@[i].taps@) by {
            assert(input@[i] == before_input[i + 1]);
        }
        assert forall|i: int, j: int|
            0 <= i <= j < input@.len() implies #[trigger] input@[i].total_waste_score
            <= #[trigger] input@[j].total_waste_score by {
            assert(input@[i] == before_input[i + 1]);
            assert(input@[j] == before_input[j + 1]);
        }
        assert(input@.len() > 0 ==> input@[0] == before_input[1]);
        proof {
            assert(plan_views(before_input)[0] == tap_plan_view(x));
            assert(plan_views(input@) =~= plan_views(before_input).drop_first());
            assert(orig.skip(done).drop_first() =~= orig.skip(done + 1));
            assert(orig[done] == tap_plan_view(x));
            let next = orig.take(done + 1);
            assert(next.drop_last() =~= orig.take(done));
            assert(next.last() == tap_plan_view(x));
        }
        let ghost outv = plan_views(out@);
        let n = out.len();
        if n > 0 && same_auto_tap_plan(&out[n - 1], &x) {
            assert(outv.last() == tap_plan_view(out@[n - 1]));
            proof {
                done = done + 1;
            }
        } else {
            assert(n > 0 ==> outv.last() == tap_plan_view(out@[n - 1]));
            let ghost before = out@;
            out.push(x);
            proof {
                assert(plan_views(out@) =~= outv.push(tap_plan_view(x)));
                done = done + 1;
            }
            assert forall|i: int, j: int|
                0 <= i <= j < out@.len() implies #[trigger] out@[i].total_waste_score
                <= #[trigger] out@[j].total_waste_score by {
                if j < before.len() {
                    assert(out@[j] == before[j]);
                }
                if i < before.len() {
                    assert(out@[i] == before[i]);
                }
                if j == before.len() && i < before.len() && before.len() > 0 {
                    assert(before[i].total_waste_score <= before.last().total_waste_score);
                }
            }
        }
    }
    assert(orig.skip(done).len() == 0);
    assert(orig.take(done) =~= orig);
    out
}

/// `produced` is exactly what `taps` produce, and every tap is of one of `sources`.
spec fn taps_account_for(sources: Seq<ManaSource>, produced: ManaPool, taps: Seq<ManaTap>) -> bool {
    &&& forall|k: int| 0 <= k < 6 ==> produced.amt(k) == tap_sum(taps, k)
    &&& taps_drawn_from(sources, taps)
}

/// Every plan of `plans` is sound and taps only `sources`.
spec fn candidates_sound(sources: Seq<ManaSource>, cost: ManaCost, plans: Seq<AutoTapPaymentPlan>) -> bool {
    forall|i: int|
        0 <= i < plans.len() ==> is_sound_auto_tap(cost, #[trigger] plans[i]) && taps_drawn_from(
            sources,
            plans[i].taps@,
        )
}

/// Collects one candidate plan per payment of every subset of the sources
/// from `source_index` on, added to the taps already chosen.
fn collect_auto_tap_candidates(
    sources: &Vec<ManaSource>,
    cost: ManaCost,
    candidates: &mut Vec<AutoTapPaymentPlan>,
    child_truncated: &mut bool,
    source_index: usize,
    produced: ManaPool,
    taps: &mut Vec<ManaTap>,
) -> (r: Result<(), PaymentError>)
    requires
        source_index <= sources@.len(),
    ensures
        final(taps)@ == old(taps)@,
        taps_account_for(sources@, produced, old(taps)@) && candidates_sound(
            sources@,
            cost,
            old(candidates)@,
        ) ==> candidates_sound(sources@, cost, final(candidates)@),
        r is Ok <==> tap_candidates(sources@, cost, source_index as int, produced, old(taps)@) is Ok,
        r matches Err(e) ==> tap_candidates(sources@, cost, source_index as int, produced, old(taps)@)
            == Err::<(Seq<TapPlanView>, bool), PaymentError>(e),
        tap_candidates(sources@, cost, source_index as int, produced, old(taps)@) matches Ok(found)
            ==> plan_views(final(candidates)@) == plan_views(old(candidates)@) + found.0
            && *final(child_truncated) == (*old(child_truncated) || found.1),
    decreases sources@.len() - source_index,
{
    let ghost sound = taps_account_for(sources@, produced, taps@) && candidates_sound(
        sources@,
        cost,
        candidates@,
    );
    if source_index == sources.len() {
        let payment_plans = match enumerate_payment_plans(produced, cost) {
            Ok(e) => e,
            Err(e) => return Err(e),
        };
        if payment_plans.truncated() {
            *child_truncated = true;
        }
        let ghost base = plan_views(candidates@);
        let ghost payments = payment_plans.plans@;
        let mut i: usize = 0;
        while i < payment_plans.plans.len()
            invariant
                i <= payment_plans.plans@.len(),
                payments == payment_plans.plans@,
                payments == capped(payment_plans_in_order(produced, cost)),
                payments.len() > 0 ==> produced.covers(colored_requirement(cost))
                    && generic_requirement(cost) <= u32::MAX,
                source_index == sources@.len(),
                forall|j: int|
                    0 <= j < payment_plans.plans@.len() ==> is_valid_payment(
                        produced,
                        cost,
                        #[trigger] payment_plans.plans@[j],
                    ),
                taps@ == old(taps)@,
                sound == (taps_account_for(sources@, produced, old(taps)@) && candidates_sound(
                    sources@,
                    cost,
                    old(candidates)@,
                )),
                sound ==> candidates_sound(sources@, cost, candidates@),
                plan_views(candidates@).len() == base.len() + i,
                plan_views(candidates@).take(base.len() as int) == base,
                forall|j: int|
                    0 <= j < i ==> plan_views(candidates@)[base.len() + j] == tap_candidate(
                        taps@,
                        produced,
                        #[trigger] payments[j],
                    ),
                forall|j: int| 0 <= j < i ==> !waste_overflows(produced, #[trigger] payments[j]),
            decreases payment_plans.plans@.len() - i,
        {
            let payment = payment_plans.plans[i];
            let unspent = match produced.checked_sub(payment.paid()) {
                Some(p) => p,
                None => return Err(PaymentError::InvalidPaymentPlan),
            };
            proof {
                lemma_pool_difference(unspent, produced, payment.paid());
            }
            let total = payment.waste_score() as u64 + unspent.total_wide();
            if total > u32::MAX as u64 {
                assert(waste_overflows(produced, payments[i as int]));
                return Err(PaymentError::ManaValueOverflow);
            }
            let plan = AutoTapPaymentPlan {
                taps: copy_taps(taps),
                produced,
                payment,
                unspent,
                total_waste_score: total as u32,
            };
            let ghost before = candidates@;
            candidates.push(plan);
            proof {
                assert(plan_views(candidates@) =~= plan_views(before).push(tap_plan_view(plan)));
                assert(tap_plan_view(plan) == tap_candidate(taps@, produced, payments[i as int]));
                assert(plan_views(candidates@).take(base.len() as int) =~= plan_views(before).take(
                    base.len() as int,
                ));
            }
            i = i + 1;
        }
        proof {
            let found = tap_candidates(sources@, cost, source_index as int, produced, old(taps)@);
            if produced.covers(colored_requirement(cost)) {
                assert(found matches Ok(f) && f.0 =~= plan_views(candidates@).skip(base.len() as int));
            }
            assert(plan_views(candidates@) =~= plan_views(candidates@).take(base.len() as int)
                + plan_views(candidates@).skip(base.len() as int));
        }
        return Ok(());
    }
    let ghost start_views = plan_views(candidates@);
    match collect_auto_tap_candidates(
        sources,
        cost,
        candidates,
        child_truncated,
        source_index + 1,
        produced,
        taps,
    ) {
        Ok(()) => {},
        Err(e) => return Err(e),
    }
    let ghost mid_views = plan_views(candidates@);
    let source = sources[source_index];
    match produced.checked_add(source.produces) {
        Some(next_produced) => {
            proof {
                lemma_pool_sum(next_produced, produced, source.produces);
            }
            let ghost before_taps = taps@;
            let tap = ManaTap { source: source.object, produced: source.produces };
            taps.push(tap);
            proof {
                assert(taps@.drop_last() =~= before_taps);
                assert(tapped_source(tap) == sources@[source_index as int]);
                assert(sources@.contains(tapped_source(tap)));
                if sound {
                    assert forall|t: int| 0 <= t < taps@.len() implies sources@.contains(
                        tapped_source(#[trigger] taps@[t]),
                    ) by {
                        if t < before_taps.len() {
                            assert(taps@[t] == before_taps[t]);
                        }
                    }
                }
            }
            let res = collect_auto_tap_candidates(
                sources,
                cost,
                candidates,
                child_truncated,
                source_index + 1,
                next_produced,
                taps,
            );
            taps.pop();
            assert(taps@ =~= before_taps);
            match res {
                Ok(()) => {},
                Err(e) => return Err(e),
            }
            proof {
                let without = tap_candidates(sources@, cost, source_index + 1, produced, old(taps)@);
                let with = tap_candidates(
                    sources@,
                    cost,
                    source_index + 1,
                    next_produced,
                    before_taps.push(tap),
                );
                match without {
                    Ok(a) => match with {
                        Ok(b) => {
                            assert(plan_views(candidates@) =~= start_views + (a.0 + b.0));
                        },
                        Err(_) => {},
                    },
                    Err(_) => {},
                }
            }
        },
        None => {
            assert(pool_add_overflows(produced, source.produces));
            return Err(PaymentError::ManaValueOverflow);
        },
    }
    Ok(())
}

/// Enumerates source-level auto-tap plans up to [`PAYMENT_PLAN_LIMIT`].
///
/// Every plan taps only given sources, pays the cost correctly out of the
/// mana those taps produce, and plans come in nondecreasing total waste.
pub fn enumerate_auto_tap_payment_plans(sources: &[ManaSource], cost: ManaCost) -> (r: Result<
    AutoTapPaymentEnumeration,
    PaymentError,
>)
    ensures
        r is Ok <==> auto_tap_result(sources@, cost) is Ok,
        r matches Err(e) ==> auto_tap_result(sources@, cost) == Err::<(Seq<TapPlanView>, bool), PaymentError>(e),
        r matches Ok(e) ==> auto_tap_result(sources@, cost) == Ok::<(Seq<TapPlanView>, bool), PaymentError>(
            (plan_views(e.plans@), e.truncated),
        ),
        r matches Ok(e) ==> {
            &&& e.plans@.len() <= PAYMENT_PLAN_LIMIT
            &&& forall|i: int|
                0 <= i < e.plans@.len() ==> is_sound_auto_tap(cost, #[trigger] e.plans@[i])
                    && taps_drawn_from(sources@, e.plans@[i].taps@)
            &&& forall|i: int, j: int|
                0 <= i <= j < e.plans@.len() ==> #[trigger] e.plans@[i].total_waste_score
                    <= #[trigger] e.plans@[j].total_waste_score
            &&& forall|i: int|
                0 <= i < e.plans@.len() - 1 ==> tap_plan_order(
                    #[trigger] tap_plan_view(e.plans@[i]),
                    tap_plan_view(e.plans@[i + 1]),
                ) < 0
            &&& forall|i: int|
                0 <= i < e.plans@.len() ==> taps_pick_from(
                    #[trigger] e.plans@[i].taps@,
                    sources_in_order(sources@),
                    sources_in_order(sources@).len() as int,
                )
        },
{
    let sorted_sources = sort_sources(sources);
    let mut candidates: Vec<AutoTapPaymentPlan> = Vec::new();
    let mut child_truncated = false;
    let mut taps: Vec<ManaTap> = Vec::new();
    proof {
        assert forall|k: int| 0 <= k < 6 implies ManaPool::zero().amt(k) == tap_sum(taps@, k) by {
        }
    }
    match collect_auto_tap_candidates(
        &sorted_sources,
        cost,
        &mut candidates,
        &mut child_truncated,
        0,
        ManaPool::empty(),
        &mut taps,
    ) {
        Ok(()) => {},
        Err(e) => return Err(e),
    }
    proof {
        assert forall|i: int|
            0 <= i < candidates@.len() implies is_sound_auto_tap(cost, #[trigger] candidates@[i])
            && taps_drawn_from(sources@, candidates@[i].taps@) by {
            let ts = candidates@[i].taps@;
            assert forall|t: int| 0 <= t < ts.len() implies sources@.contains(
                tapped_source(#[trigger] ts[t]),
            ) by {
                assert(sorted_sources@.contains(tapped_source(ts[t])));
                let w = choose|w: int|
                    0 <= w < sorted_sources@.len() && sorted_sources@[w] == tapped_source(ts[t]);
                assert(sources@.contains(sorted_sources@[w]));
            }
        }
    }
    let sorted = sort_auto_tap_plans(Ghost(cost), Ghost(sources@), candidates);
    let mut plans = dedup_auto_tap_plans(Ghost(cost), Ghost(sources@), sorted);
    let mut truncated = child_truncated;
    if plans.len() > PAYMENT_PLAN_LIMIT {
        let ghost before = plans@;
        plans.truncate(PAYMENT_PLAN_LIMIT);
        assert(plan_views(plans@) =~= plan_views(before).take(PAYMENT_PLAN_LIMIT as int));
        truncated = true;
    }
    proof {
        assert(auto_tap_result(sources@, cost) == Ok::<(Seq<TapPlanView>, bool), PaymentError>(
            (plan_views(plans@), truncated),
        ));
        let tc = tap_candidates(sources_in_order(sources@), cost, 0, ManaPool::zero(), Seq::empty());
        if let Ok(found) = tc {
            let in_order = tap_plans_in_order(found.0);
            lemma_tap_plans_in_order_sorted(found.0);
            lemma_without_repeats_sorted(in_order);
            let distinct = without_repeats(in_order);
            let views = plan_views(plans@);
            assert forall|i: int| 0 <= i < plans@.len() - 1 implies tap_plan_order(
                #[trigger] tap_plan_view(plans@[i]),
                tap_plan_view(plans@[i + 1]),
            ) < 0 by {
                assert(views[i] == distinct[i] && views[i + 1] == distinct[i + 1]);
                assert(views[i] == tap_plan_view(plans@[i]) && views[i + 1] == tap_plan_view(plans@[i + 1]));
                assert(tap_plan_order(distinct[i], distinct[i + 1]) <= 0);
                if tap_plan_order(distinct[i], distinct[i + 1]) == 0 {
                    lemma_sound_plans_equal_when_order_zero(cost, plans@[i], plans@[i + 1]);
                }
            }
            let ordered = sources_in_order(sources@);
            assert(taps_pick_from(Seq::<ManaTap>::empty(), ordered, 0)) by {
                assert(Seq::<int>::empty().len() == 0);
            }
            lemma_tap_candidates_pick(ordered, cost, 0, ManaPool::zero(), Seq::empty());
            lemma_tap_plans_in_order_multiset(found.0);
            assert forall|i: int| 0 <= i < plans@.len() implies taps_pick_from(
                #[trigger] plans@[i].taps@,
                ordered,
                ordered.len() as int,
            ) by {
                broadcast use vstd::seq_lib::to_multiset_contains;

                assert(views[i] == distinct[i]);
                assert(views[i] == tap_plan_view(plans@[i]));
                assert(in_order.contains(distinct[i]));
                assert(in_order.to_multiset().count(distinct[i]) > 0);
                assert(found.0.contains(distinct[i]));
                let k = choose|k: int| 0 <= k < found.0.len() && found.0[k] == distinct[i];
                assert(taps_pick_from(found.0[k].0, ordered, ordered.len() as int));
            }
        }
    }
    Ok(AutoTapPaymentEnumeration { plans, truncated })
}

/// Returns the preferred source-level auto-tap plan, if the cost can be paid.
pub fn auto_tap_payment_plan(sources: &[ManaSource], cost: ManaCost) -> (r: Result<
    Option<AutoTapPaymentPlan>,
    PaymentError,
>)
    ensures
        r is Ok <==> auto_tap_result(sources@, cost) is Ok,
        r matches Err(e) ==> auto_tap_result(sources@, cost) == Err::<(Seq<TapPlanView>, bool), PaymentError>(e),
        r matches Ok(best) ==> auto_tap_result(sources@, cost) matches Ok(found) && (if found.0.len() == 0 {
            best is None
        } else {
            best matches Some(plan) && tap_plan_view(plan) == found.0[0]
        }),
        r matches Ok(Some(plan)) ==> is_sound_auto_tap(cost, plan) && taps_drawn_from(
            sources@,
            plan.taps@,
        ),
{
    match enumerate_auto_tap_payment_plans(sources, cost) {
        Ok(e) => match e.best() {
            Some(plan) => Ok(Some(plan.duplicate())),
            None => Ok(None),
        },
        Err(e) => Err(e),
    }
}

impl Default for ManaPool {
    /// An empty pool.
    fn default() -> (r: Self)
        ensures
            r == ManaPool::zero(),
    {
        ManaPool::empty()
    }
}

} // verus!
