//! The builtin functions.
use crate::text::same;
use vstd::prelude::*;
use vstd::string::*;

verus! {

/// A function that every program can call without declaring it.
#[derive(Debug, Clone, Copy, PartialEq, Eq, Structural)]
pub enum Builtin {
    RandSeed,
    RandF64,
    RandGaussian,
    Distance,
    Bearing,
    LlaToEcef,
    EcefToLla,
    EcefToEnu,
    EnuToEcef,
    KfPredictState,
    KfPredictCov,
    KfUpdateState,
    KfUpdateCov,
    Print,
    Transpose,
    Dot,
    Cross,
    Zeros,
    Ones,
    Identity,
    Sum,
    Len,
    Norm,
    Norm1,
    NormInf,
    FrobeniusNorm,
    Trace,
    Det,
    Inv,
    Solve,
    Rank,
    IsSymmetric,
    IsDiag,
    IsSquare,
}

/// How a builtin is written in a program.
pub open spec fn builtin_name(b: Builtin) -> Seq<char> {
    match b {
        Builtin::RandSeed => "rand_seed"@,
        Builtin::RandF64 => "rand_f64"@,
        Builtin::RandGaussian => "rand_gaussian"@,
        Builtin::Distance => "distance"@,
        Builtin::Bearing => "bearing"@,
        Builtin::LlaToEcef => "lla_to_ecef"@,
        Builtin::EcefToLla => "ecef_to_lla"@,
        Builtin::EcefToEnu => "ecef_to_enu"@,
        Builtin::EnuToEcef => "enu_to_ecef"@,
        Builtin::KfPredictState => "kf_predict_state"@,
        Builtin::KfPredictCov => "kf_predict_cov"@,
        Builtin::KfUpdateState => "kf_update_state"@,
        Builtin::KfUpdateCov => "kf_update_cov"@,
        Builtin::Print => "print"@,
        Builtin::Transpose => "transpose"@,
        Builtin::Dot => "dot"@,
        Builtin::Cross => "cross"@,
        Builtin::Zeros => "zeros"@,
        Builtin::Ones => "ones"@,
        Builtin::Identity => "identity"@,
        Builtin::Sum => "sum"@,
        Builtin::Len => "len"@,
        Builtin::Norm => "norm"@,
        Builtin::Norm1 => "norm1"@,
        Builtin::NormInf => "norm_inf"@,
        Builtin::FrobeniusNorm => "frobenius_norm"@,
        Builtin::Trace => "trace"@,
        Builtin::Det => "det"@,
        Builtin::Inv => "inv"@,
        Builtin::Solve => "solve"@,
        Builtin::Rank => "rank"@,
        Builtin::IsSymmetric => "is_symmetric"@,
        Builtin::IsDiag => "is_diag"@,
        Builtin::IsSquare => "is_square"@,
    }
}

/// The builtin that a name stands for.
pub open spec fn builtin_named(name: Seq<char>) -> Option<Builtin> {
    if name == "rand_seed"@ {
        Some(Builtin::RandSeed)
    } else if name == "rand_f64"@ {
        Some(Builtin::RandF64)
    } else if name == "rand_gaussian"@ {
        Some(Builtin::RandGaussian)
    } else if name == "distance"@ {
        Some(Builtin::Distance)
    } else if name == "bearing"@ {
        Some(Builtin::Bearing)
    } else if name == "lla_to_ecef"@ {
        Some(Builtin::LlaToEcef)
    } else if name == "ecef_to_lla"@ {
        Some(Builtin::EcefToLla)
    } else if name == "ecef_to_enu"@ {
        Some(Builtin::EcefToEnu)
    } else if name == "enu_to_ecef"@ {
        Some(Builtin::EnuToEcef)
    } else if name == "kf_predict_state"@ {
        Some(Builtin::KfPredictState)
    } else if name == "kf_predict_cov"@ {
        Some(Builtin::KfPredictCov)
    } else if name == "kf_update_state"@ {
        Some(Builtin::KfUpdateState)
    } else if name == "kf_update_cov"@ {
        Some(Builtin::KfUpdateCov)
    } else if name == "print"@ {
        Some(Builtin::Print)
    } else if name == "transpose"@ {
        Some(Builtin::Transpose)
    } else if name == "dot"@ {
        Some(Builtin::Dot)
    } else if name == "cross"@ {
        Some(Builtin::Cross)
    } else if name == "zeros"@ {
        Some(Builtin::Zeros)
    } else if name == "ones"@ {
        Some(Builtin::Ones)
    } else if name == "identity"@ {
        Some(Builtin::Identity)
    } else if name == "sum"@ {
        Some(Builtin::Sum)
    } else if name == "len"@ {
        Some(Builtin::Len)
    } else if name == "norm"@ {
        Some(Builtin::Norm)
    } else if name == "norm1"@ {
        Some(Builtin::Norm1)
    } else if name == "norm_inf"@ {
        Some(Builtin::NormInf)
    } else if name == "frobenius_norm"@ {
        Some(Builtin::FrobeniusNorm)
    } else if name == "trace"@ {
        Some(Builtin::Trace)
    } else if name == "det"@ {
        Some(Builtin::Det)
    } else if name == "inv"@ {
        Some(Builtin::Inv)
    } else if name == "solve"@ {
        Some(Builtin::Solve)
    } else if name == "rank"@ {
        Some(Builtin::Rank)
    } else if name == "is_symmetric"@ {
        Some(Builtin::IsSymmetric)
    } else if name == "is_diag"@ {
        Some(Builtin::IsDiag)
    } else if name == "is_square"@ {
        Some(Builtin::IsSquare)
    } else {
        None
    }
}

impl Builtin {
    /// The builtin that `name` stands for.
    pub fn from_name(name: &str) -> (r: Option<Builtin>)
        ensures
            r == builtin_named(name@),
    {
        if same(name, "rand_seed") {
            Some(Builtin::RandSeed)
        } else if same(name, "rand_f64") {
            Some(Builtin::RandF64)
        } else if same(name, "rand_gaussian") {
            Some(Builtin::RandGaussian)
        } else if same(name, "distance") {
            Some(Builtin::Distance)
        } else if same(name, "bearing") {
            Some(Builtin::Bearing)
        } else if same(name, "lla_to_ecef") {
            Some(Builtin::LlaToEcef)
        } else if same(name, "ecef_to_lla") {
            Some(Builtin::EcefToLla)
        } else if same(name, "ecef_to_enu") {
            Some(Builtin::EcefToEnu)
        } else if same(name, "enu_to_ecef") {
            Some(Builtin::EnuToEcef)
        } else if same(name, "kf_predict_state") {
            Some(Builtin::KfPredictState)
        } else if same(name, "kf_predict_cov") {
            Some(Builtin::KfPredictCov)
        } else if same(name, "kf_update_state") {
            Some(Builtin::KfUpdateState)
        } else if same(name, "kf_update_cov") {
            Some(Builtin::KfUpdateCov)
        } else if same(name, "print") {
            Some(Builtin::Print)
        } else if same(name, "transpose") {
            Some(Builtin::Transpose)
        } else if same(name, "dot") {
            Some(Builtin::Dot)
        } else if same(name, "cross") {
            Some(Builtin::Cross)
        } else if same(name, "zeros") {
            Some(Builtin::Zeros)
        } else if same(name, "ones") {
            Some(Builtin::Ones)
        } else if same(name, "identity") {
            Some(Builtin::Identity)
        } else if same(name, "sum") {
            Some(Builtin::Sum)
        } else if same(name, "len") {
            Some(Builtin::Len)
        } else if same(name, "norm") {
            Some(Builtin::Norm)
        } else if same(name, "norm1") {
            Some(Builtin::Norm1)
        } else if same(name, "norm_inf") {
            Some(Builtin::NormInf)
        } else if same(name, "frobenius_norm") {
            Some(Builtin::FrobeniusNorm)
        } else if same(name, "trace") {
            Some(Builtin::Trace)
        } else if same(name, "det") {
            Some(Builtin::Det)
        } else if same(name, "inv") {
            Some(Builtin::Inv)
        } else if same(name, "solve") {
            Some(Builtin::Solve)
        } else if same(name, "rank") {
            Some(Builtin::Rank)
        } else if same(name, "is_symmetric") {
            Some(Builtin::IsSymmetric)
        } else if same(name, "is_diag") {
            Some(Builtin::IsDiag)
        } else if same(name, "is_square") {
            Some(Builtin::IsSquare)
        } else {
            None
        }
    }

    /// How the builtin is written in a program.
    pub fn name(self) -> (r: &'static str)
        ensures
            r@ == builtin_name(self),
    {
        match self {
            Builtin::RandSeed => "rand_seed",
            Builtin::RandF64 => "rand_f64",
            Builtin::RandGaussian => "rand_gaussian",
            Builtin::Distance => "distance",
            Builtin::Bearing => "bearing",
            Builtin::LlaToEcef => "lla_to_ecef",
            Builtin::EcefToLla => "ecef_to_lla",
            Builtin::EcefToEnu => "ecef_to_enu",
            Builtin::EnuToEcef => "enu_to_ecef",
            Builtin::KfPredictState => "kf_predict_state",
            Builtin::KfPredictCov => "kf_predict_cov",
            Builtin::KfUpdateState => "kf_update_state",
            Builtin::KfUpdateCov => "kf_update_cov",
            Builtin::Print => "print",
            Builtin::Transpose => "transpose",
            Builtin::Dot => "dot",
            Builtin::Cross => "cross",
            Builtin::Zeros => "zeros",
            Builtin::Ones => "ones",
            Builtin::Identity => "identity",
            Builtin::Sum => "sum",
            Builtin::Len => "len",
            Builtin::Norm => "norm",
            Builtin::Norm1 => "norm1",
            Builtin::NormInf => "norm_inf",
            Builtin::FrobeniusNorm => "frobenius_norm",
            Builtin::Trace => "trace",
            Builtin::Det => "det",
            Builtin::Inv => "inv",
            Builtin::Solve => "solve",
            Builtin::Rank => "rank",
            Builtin::IsSymmetric => "is_symmetric",
            Builtin::IsDiag => "is_diag",
            Builtin::IsSquare => "is_square",
        }
    }
}

/// Whether `name` is a builtin, and so cannot be the name of a declared function.
pub fn is_builtin(name: &str) -> (r: bool)
    ensures
        r == (builtin_named(name@) is Some),
{
    Builtin::from_name(name).is_some()
}

/// A name stands for the builtin that is written that way.
pub proof fn builtin_name_round_trip(name: Seq<char>)
    ensures
        builtin_named(name) matches Some(b) ==> builtin_name(b) == name,
{
}

} // verus!
