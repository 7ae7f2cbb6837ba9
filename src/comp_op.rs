use vstd::prelude::*;

verus! {

/// Comparison operators.
#[derive(Debug, Clone, Copy, PartialEq, Eq, Structural)]
pub enum CompOp {
    /// Equal to. (==)
    EQ,
    /// Not equal to. (!=)
    NE,
    /// Less than. (<)
    LT,
    /// Less than or equal to. (<=)
    LE,
    /// Greater than or equal to. (>=)
    GE,
    /// Greater than. (>)
    GT,
}

/// The inverted operator: EQ <-> NE, LT <-> GE, LE <-> GT.
pub open spec fn spec_invert(op: CompOp) -> CompOp {
    match op {
        CompOp::EQ => CompOp::NE,
        CompOp::NE => CompOp::EQ,
        CompOp::LT => CompOp::GE,
        CompOp::LE => CompOp::GT,
        CompOp::GE => CompOp::LT,
        CompOp::GT => CompOp::LE,
    }
}

/// The opposite operator: EQ <-> NE, LT <-> GT, LE <-> GE.
pub open spec fn spec_opposite(op: CompOp) -> CompOp {
    match op {
        CompOp::EQ => CompOp::NE,
        CompOp::NE => CompOp::EQ,
        CompOp::LT => CompOp::GT,
        CompOp::LE => CompOp::GE,
        CompOp::GE => CompOp::LE,
        CompOp::GT => CompOp::LT,
    }
}

/// The flipped operator: LT <-> GT, LE <-> GE; EQ and NE stay.
pub open spec fn spec_flip(op: CompOp) -> CompOp {
    match op {
        CompOp::LT => CompOp::GT,
        CompOp::LE => CompOp::GE,
        CompOp::GE => CompOp::LE,
        CompOp::GT => CompOp::LT,
        _ => op,
    }
}

/// The textual sign of an operator.
pub open spec fn spec_sign(op: CompOp) -> Seq<char> {
    match op {
        CompOp::EQ => "=="@,
        CompOp::NE => "!="@,
        CompOp::LT => "<"@,
        CompOp::LE => "<="@,
        CompOp::GE => ">="@,
        CompOp::GT => ">"@,
    }
}

/// The factor of an operator: 0 for EQ and NE, -1 for LT and LE, 1 for GE and GT.
pub open spec fn spec_factor(op: CompOp) -> int {
    match op {
        CompOp::EQ | CompOp::NE => 0,
        CompOp::LT | CompOp::LE => -1,
        CompOp::GE | CompOp::GT => 1,
    }
}

/// Whether `op` holds between two values whose raw comparison outcome is `outcome`
/// (one of LT, EQ, GT).
pub open spec fn admits(outcome: CompOp, op: CompOp) -> bool {
    match outcome {
        CompOp::EQ => op == CompOp::EQ || op == CompOp::LE || op == CompOp::GE,
        CompOp::LT => op == CompOp::NE || op == CompOp::LT || op == CompOp::LE,
        CompOp::GT => op == CompOp::NE || op == CompOp::GT || op == CompOp::GE,
        _ => false,
    }
}

/// Whether `op` is one of the three raw outcomes of a comparison.
pub open spec fn is_outcome(op: CompOp) -> bool {
    op == CompOp::LT || op == CompOp::EQ || op == CompOp::GT
}

impl CompOp {
    /// Convert to the inverted comparison operator.
    pub fn as_inverted(self) -> (r: Self)
        ensures
            r == spec_invert(self),
    {
        self.invert()
    }

    /// Get the inverted comparison operator: EQ <-> NE, LT <-> GE, LE <-> GT.
    pub fn invert(&self) -> (r: Self)
        ensures
            r == spec_invert(*self),
    {
        match self {
            CompOp::EQ => CompOp::NE,
            CompOp::NE => CompOp::EQ,
            CompOp::LT => CompOp::GE,
            CompOp::LE => CompOp::GT,
            CompOp::GE => CompOp::LT,
            CompOp::GT => CompOp::LE,
        }
    }

    /// Convert to the opposite comparison operator.
    pub fn as_opposite(self) -> (r: Self)
        ensures
            r == spec_opposite(self),
    {
        self.opposite()
    }

    /// Get the opposite comparison operator: EQ <-> NE, LT <-> GT, LE <-> GE.
    pub fn opposite(&self) -> (r: Self)
        ensures
            r == spec_opposite(*self),
    {
        match self {
            CompOp::EQ => CompOp::NE,
            CompOp::NE => CompOp::EQ,
            CompOp::LT => CompOp::GT,
            CompOp::LE => CompOp::GE,
            CompOp::GE => CompOp::LE,
            CompOp::GT => CompOp::LT,
        }
    }

    /// Convert to the flipped comparison operator.
    pub fn as_flipped(self) -> (r: Self)
        ensures
            r == spec_flip(self),
    {
        self.flip()
    }

    /// Get the flipped comparison operator: LT <-> GT, LE <-> GE, others unchanged.
    pub fn flip(&self) -> (r: Self)
        ensures
            r == spec_flip(*self),
    {
        match self {
            CompOp::LT => CompOp::GT,
            CompOp::LE => CompOp::GE,
            CompOp::GE => CompOp::LE,
            CompOp::GT => CompOp::LT,
            _ => *self,
        }
    }

    /// Get the sign of this operator: `==`, `!=`, `<`, `<=`, `>=` or `>`.
    pub fn sign(&self) -> (r: &'static str)
        ensures
            r@ == spec_sign(*self),
    {
        match self {
            CompOp::EQ => "==",
            CompOp::NE => "!=",
            CompOp::LT => "<",
            CompOp::LE => "<=",
            CompOp::GE => ">=",
            CompOp::GT => ">",
        }
    }

    /// Get a factor for this operator, useful for quick calculations:
    /// 0 for EQ and NE, -1 for LT and LE, 1 for GE and GT.
    pub fn factor(&self) -> (r: i8)
        ensures
            r as int == spec_factor(*self),
    {
        match self {
            CompOp::EQ | CompOp::NE => 0,
            CompOp::LT | CompOp::LE => -1,
            CompOp::GT | CompOp::GE => 1,
        }
    }
}

/// Inverting twice gives back the operator.
pub proof fn lemma_invert_involutive(op: CompOp)
    ensures
        spec_invert(spec_invert(op)) == op,
{
}

/// Taking the opposite twice gives back the operator.
pub proof fn lemma_opposite_involutive(op: CompOp)
    ensures
        spec_opposite(spec_opposite(op)) == op,
{
}

/// Flipping twice gives back the operator.
pub proof fn lemma_flip_involutive(op: CompOp)
    ensures
        spec_flip(spec_flip(op)) == op,
{
}

/// For a raw outcome, an operator and its inverse never both hold, and one of them always does.
pub proof fn lemma_admits_invert(outcome: CompOp, op: CompOp)
    requires
        is_outcome(outcome),
    ensures
        admits(outcome, spec_invert(op)) == !admits(outcome, op),
{
}

} // verus!
