use vstd::prelude::*;

use crate::text::push_str;

verus! {

/// The operations of the algebra engine that builtin functions stand for.
#[derive(Clone, Copy, Debug, PartialEq, Eq, Hash, Structural)]
pub enum BuiltinOp {
    Sin,
    ArcSin,
    Cos,
    ArcCos,
    Tan,
    ArcTan,
    Sec,
    Ln,
    Log10,
    Exp,
    Sqrt,
    Deriv,
    Numer,
    Denom,
    Base,
    Expon,
    Reduce,
    Expand,
    ExpandMain,
    Cancel,
    Rationalize,
    FactorOut,
    CommonFactor,
    FreeOf,
}

impl BuiltinOp {
    /// The name under which the function is called.
    pub open spec fn spec_name(self) -> Seq<char> {
        match self {
            BuiltinOp::Sin => "sin"@,
            BuiltinOp::ArcSin => "arcsin"@,
            BuiltinOp::Cos => "cos"@,
            BuiltinOp::ArcCos => "arccos"@,
            BuiltinOp::Tan => "tan"@,
            BuiltinOp::ArcTan => "arctan"@,
            BuiltinOp::Sec => "sec"@,
            BuiltinOp::Ln => "ln"@,
            BuiltinOp::Log10 => "log10"@,
            BuiltinOp::Exp => "exp"@,
            BuiltinOp::Sqrt => "sqrt"@,
            BuiltinOp::Deriv => "deriv"@,
            BuiltinOp::Numer => "numer"@,
            BuiltinOp::Denom => "denom"@,
            BuiltinOp::Base => "base"@,
            BuiltinOp::Expon => "expon"@,
            BuiltinOp::Reduce => "reduce"@,
            BuiltinOp::Expand => "expand"@,
            BuiltinOp::ExpandMain => "expand_main"@,
            BuiltinOp::Cancel => "cancel"@,
            BuiltinOp::Rationalize => "rationalize"@,
            BuiltinOp::FactorOut => "factor_out"@,
            BuiltinOp::CommonFactor => "common_factor"@,
            BuiltinOp::FreeOf => "free_of"@,
        }
    }

    /// The names of the parameters, in order.
    pub open spec fn spec_params(self) -> Seq<Seq<char>> {
        match self {
            BuiltinOp::Sin => seq!["x"@],
            BuiltinOp::ArcSin => seq!["x"@],
            BuiltinOp::Cos => seq!["x"@],
            BuiltinOp::ArcCos => seq!["x"@],
            BuiltinOp::Tan => seq!["x"@],
            BuiltinOp::ArcTan => seq!["x"@],
            BuiltinOp::Sec => seq!["x"@],
            BuiltinOp::Ln => seq!["x"@],
            BuiltinOp::Log10 => seq!["x"@],
            BuiltinOp::Exp => seq!["x"@],
            BuiltinOp::Sqrt => seq!["x"@],
            BuiltinOp::Deriv => seq!["f"@, "x"@],
            BuiltinOp::Numer => seq!["frac"@],
            BuiltinOp::Denom => seq!["frac"@],
            BuiltinOp::Base => seq!["power"@],
            BuiltinOp::Expon => seq!["power"@],
            BuiltinOp::Reduce => seq!["x"@],
            BuiltinOp::Expand => seq!["x"@],
            BuiltinOp::ExpandMain => seq!["x"@],
            BuiltinOp::Cancel => seq!["x"@],
            BuiltinOp::Rationalize => seq!["x"@],
            BuiltinOp::FactorOut => seq!["x"@],
            BuiltinOp::CommonFactor => seq!["a"@, "b"@],
            BuiltinOp::FreeOf => seq!["expr"@, "x"@],
        }
    }

    pub fn name(&self) -> (r: &'static str)
        ensures
            r@ == self.spec_name(),
    {
        match self {
            BuiltinOp::Sin => "sin",
            BuiltinOp::ArcSin => "arcsin",
            BuiltinOp::Cos => "cos",
            BuiltinOp::ArcCos => "arccos",
            BuiltinOp::Tan => "tan",
            BuiltinOp::ArcTan => "arctan",
            BuiltinOp::Sec => "sec",
            BuiltinOp::Ln => "ln",
            BuiltinOp::Log10 => "log10",
            BuiltinOp::Exp => "exp",
            BuiltinOp::Sqrt => "sqrt",
            BuiltinOp::Deriv => "deriv",
            BuiltinOp::Numer => "numer",
            BuiltinOp::Denom => "denom",
            BuiltinOp::Base => "base",
            BuiltinOp::Expon => "expon",
            BuiltinOp::Reduce => "reduce",
            BuiltinOp::Expand => "expand",
            BuiltinOp::ExpandMain => "expand_main",
            BuiltinOp::Cancel => "cancel",
            BuiltinOp::Rationalize => "rationalize",
            BuiltinOp::FactorOut => "factor_out",
            BuiltinOp::CommonFactor => "common_factor",
            BuiltinOp::FreeOf => "free_of",
        }
    }

    pub fn params(&self) -> (r: Vec<&'static str>)
        ensures
            r@.map_values(|p: &str| p@) == self.spec_params(),
    {
        let r = match self {
            BuiltinOp::Sin => vec!["x"],
            BuiltinOp::ArcSin => vec!["x"],
            BuiltinOp::Cos => vec!["x"],
            BuiltinOp::ArcCos => vec!["x"],
            BuiltinOp::Tan => vec!["x"],
            BuiltinOp::ArcTan => vec!["x"],
            BuiltinOp::Sec => vec!["x"],
            BuiltinOp::Ln => vec!["x"],
            BuiltinOp::Log10 => vec!["x"],
            BuiltinOp::Exp => vec!["x"],
            BuiltinOp::Sqrt => vec!["x"],
            BuiltinOp::Deriv => vec!["f", "x"],
            BuiltinOp::Numer => vec!["frac"],
            BuiltinOp::Denom => vec!["frac"],
            BuiltinOp::Base => vec!["power"],
            BuiltinOp::Expon => vec!["power"],
            BuiltinOp::Reduce => vec!["x"],
            BuiltinOp::Expand => vec!["x"],
            BuiltinOp::ExpandMain => vec!["x"],
            BuiltinOp::Cancel => vec!["x"],
            BuiltinOp::Rationalize => vec!["x"],
            BuiltinOp::FactorOut => vec!["x"],
            BuiltinOp::CommonFactor => vec!["a", "b"],
            BuiltinOp::FreeOf => vec!["expr", "x"],
        };
        assert(r@.map_values(|p: &str| p@) =~= self.spec_params());
        r
    }

    pub fn n_params(&self) -> (r: usize)
        ensures
            r == self.spec_params().len(),
    {
        match self {
            BuiltinOp::Sin => 1,
            BuiltinOp::ArcSin => 1,
            BuiltinOp::Cos => 1,
            BuiltinOp::ArcCos => 1,
            BuiltinOp::Tan => 1,
            BuiltinOp::ArcTan => 1,
            BuiltinOp::Sec => 1,
            BuiltinOp::Ln => 1,
            BuiltinOp::Log10 => 1,
            BuiltinOp::Exp => 1,
            BuiltinOp::Sqrt => 1,
            BuiltinOp::Deriv => 2,
            BuiltinOp::Numer => 1,
            BuiltinOp::Denom => 1,
            BuiltinOp::Base => 1,
            BuiltinOp::Expon => 1,
            BuiltinOp::Reduce => 1,
            BuiltinOp::Expand => 1,
            BuiltinOp::ExpandMain => 1,
            BuiltinOp::Cancel => 1,
            BuiltinOp::Rationalize => 1,
            BuiltinOp::FactorOut => 1,
            BuiltinOp::CommonFactor => 2,
            BuiltinOp::FreeOf => 2,
        }
    }
}

/// Every builtin, in the order lookups try them.
pub open spec fn builtin_table() -> Seq<BuiltinOp> {
    seq![
        BuiltinOp::Sin,
        BuiltinOp::ArcSin,
        BuiltinOp::Cos,
        BuiltinOp::ArcCos,
        BuiltinOp::Tan,
        BuiltinOp::ArcTan,
        BuiltinOp::Sec,
        BuiltinOp::Ln,
        BuiltinOp::Log10,
        BuiltinOp::Exp,
        BuiltinOp::Sqrt,
        BuiltinOp::Deriv,
        BuiltinOp::Numer,
        BuiltinOp::Denom,
        BuiltinOp::Base,
        BuiltinOp::Expon,
        BuiltinOp::Reduce,
        BuiltinOp::Expand,
        BuiltinOp::ExpandMain,
        BuiltinOp::Cancel,
        BuiltinOp::Rationalize,
        BuiltinOp::FactorOut,
        BuiltinOp::CommonFactor,
        BuiltinOp::FreeOf,
    ]
}

/// The first of `ops` called `name`.
pub open spec fn find_op(ops: Seq<BuiltinOp>, name: Seq<char>) -> Option<BuiltinOp>
    decreases ops.len(),
{
    if ops.len() == 0 {
        None
    } else if ops[0].spec_name() == name {
        Some(ops[0])
    } else {
        find_op(ops.drop_first(), name)
    }
}

/// The builtin called `name`, if there is one.
pub open spec fn lookup(name: Seq<char>) -> Option<BuiltinOp> {
    find_op(builtin_table(), name)
}

pub fn builtin_ops() -> (r: Vec<BuiltinOp>)
    ensures
        r@ == builtin_table(),
{
    let r = vec![
        BuiltinOp::Sin,
        BuiltinOp::ArcSin,
        BuiltinOp::Cos,
        BuiltinOp::ArcCos,
        BuiltinOp::Tan,
        BuiltinOp::ArcTan,
        BuiltinOp::Sec,
        BuiltinOp::Ln,
        BuiltinOp::Log10,
        BuiltinOp::Exp,
        BuiltinOp::Sqrt,
        BuiltinOp::Deriv,
        BuiltinOp::Numer,
        BuiltinOp::Denom,
        BuiltinOp::Base,
        BuiltinOp::Expon,
        BuiltinOp::Reduce,
        BuiltinOp::Expand,
        BuiltinOp::ExpandMain,
        BuiltinOp::Cancel,
        BuiltinOp::Rationalize,
        BuiltinOp::FactorOut,
        BuiltinOp::CommonFactor,
        BuiltinOp::FreeOf,
    ];
    assert(r@ =~= builtin_table());
    r
}

/// Whether two strings hold the same characters.
pub fn str_eq(a: &str, b: &str) -> (r: bool)
    ensures
        r == (a@ == b@),
{
    let a = a.to_owned();
    let b = b.to_owned();
    a.eq(&b)
}

/// A builtin function: its name, its parameters and the operation it stands for.
#[derive(Clone, Copy, Debug, PartialEq, Eq, Hash, Structural)]
pub struct BuiltinFn {
    pub op: BuiltinOp,
}

impl BuiltinFn {
    pub fn name(&self) -> (r: &'static str)
        ensures
            r@ == self.op.spec_name(),
    {
        self.op.name()
    }

    pub fn params(&self) -> (r: Vec<&'static str>)
        ensures
            r@.map_values(|p: &str| p@) == self.op.spec_params(),
    {
        self.op.params()
    }

    pub fn n_params(&self) -> (r: usize)
        ensures
            r == self.op.spec_params().len(),
    {
        self.op.n_params()
    }

    /// How the function is shown: its name and its parameters, `name(a, b)`.
    pub open spec fn spec_signature(self) -> Seq<char> {
        self.op.spec_name() + "("@ + join_params(self.op.spec_params()) + ")"@
    }

    pub fn to_string(&self) -> (r: String)
        ensures
            r@ == self.spec_signature(),
    {
        let mut s = String::new();
        push_str(&mut s, self.op.name());
        push_str(&mut s, "(");
        let ps = self.op.params();
        let ghost pv = ps@.map_values(|p: &str| p@);
        let mut i: usize = 0;
        while i < ps.len()
            invariant
                i <= ps.len(),
                pv == ps@.map_values(|p: &str| p@),
                s@ == self.op.spec_name() + "("@ + join_params(pv.subrange(0, i as int)),
            decreases ps.len() - i,
        {
            if i > 0 {
                push_str(&mut s, ", ");
            }
            push_str(&mut s, ps[i]);
            proof {
                assert(pv.subrange(0, i + 1).drop_last() =~= pv.subrange(0, i as int));
                assert(s@ =~= self.op.spec_name() + "("@ + join_params(pv.subrange(0, i + 1)));
            }
            i = i + 1;
        }
        push_str(&mut s, ")");
        assert(pv.subrange(0, ps.len() as int) =~= pv);
        assert(s@ =~= self.spec_signature());
        s
    }
}

/// The names joined by `", "`.
pub open spec fn join_params(ps: Seq<Seq<char>>) -> Seq<char>
    decreases ps.len(),
{
    if ps.len() == 0 {
        seq![]
    } else if ps.len() == 1 {
        ps[0]
    } else {
        join_params(ps.drop_last()) + ", "@ + ps.last()
    }
}

/// The builtin function called `name`, if there is one.
pub fn get_builtin(name: &str) -> (r: Option<BuiltinFn>)
    ensures
        r == match lookup(name@) {
            Some(op) => Some(BuiltinFn { op }),
            None => None::<BuiltinFn>,
        },
{
    let ops = builtin_ops();
    let mut i: usize = 0;
    assert(ops@.subrange(0, ops@.len() as int) =~= ops@);
    while i < ops.len()
        invariant
            i <= ops.len(),
            ops@ == builtin_table(),
            find_op(ops@.subrange(i as int, ops@.len() as int), name@) == lookup(name@),
        decreases ops.len() - i,
    {
        let ghost rest = ops@.subrange(i as int, ops@.len() as int);
        assert(rest.drop_first() =~= ops@.subrange(i + 1, ops@.len() as int));
        if str_eq(ops[i].name(), name) {
            return Some(BuiltinFn { op: ops[i] });
        }
        i = i + 1;
    }
    None
}

} // verus!
