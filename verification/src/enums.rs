//! Error taxonomy and the enumerations that govern sampling cadence,
//! date movement and ranking.

use vstd::prelude::*;

verus! {

/// Outcome codes reported by the calculation routines.
#[derive(PartialEq, Eq, Structural, Debug, Clone, Copy)]
pub enum Errors {
    ClErrorCodeNoError,
    ClErrorCodeInvalidPara,
    ClErrorCodeInvalidOutput,
    ClErrorCodeInvalidValue,
    ClErrorCodeInputLenTooShort,
    ClErrorCodeInvalidDate,
    ClErrorCodeCcFaild,
    ClErrorCodeDidNotSetHoliday,
    ClErrorCodeUnsortedByDate,
    ClErrorCodeJni,
    ClErrorCodeUnknown,
    ClErrorMleCodeLogStalbeVar,
    ClErrorCodeFtqLogStalbeVar,
    ClErrorCodeInvLogStalbeVar,
    ClErrorCodeEcfLogStalbeVar,
    ClErrorCodeCurHergeException,
}

/// Sampling cadence of a return series.
#[derive(PartialEq, Eq, Structural, Debug, Clone, Copy)]
pub enum ClFrequency {
    ClFrequencyUnknown,
    ClFrequencyDaily,
    ClFrequencyWeekly,
    ClFrequencyMonthly,
    ClFrequencyQuarterly,
    ClFrequencyAnnually,
    ClFrequencySemiannually,
}

/// How a date is adjusted after being shifted by whole periods.
#[derive(PartialEq, Eq, Structural, Debug, Clone, Copy)]
pub enum ClDateMoveAction {
    ClMoveToEnd,
    ClMoveToBegin,
    ClNotMove,
}

/// Ranking styles offered alongside the statistics.
#[derive(PartialEq, Eq, Structural, Debug, Clone, Copy)]
pub enum ClRankType {
    ClRankTypeNoRank,
    ClRankTypeRaw,
    ClRankTypeAsc,
    ClRankTypeDec,
    ClRankTypePercAsc,
    ClRankTypePercDec,
    ClRankTypeDecAsc,
    ClRankTypeDecDec,
    ClRankTypeQuinAsc,
    ClRankTypeQuinDec,
    ClRankTypeQuartAsc,
    ClRankTypeQuartDec,
}

/// Credit-quality grades used by the average-credit-quality statistics.
#[derive(PartialEq, Eq, Structural, Debug, Clone, Copy)]
pub enum ClCreditQualityRating {
    CLGradeNotRated,
    CLGradeBelowB,
    CLGradeB,
    CLGradeBB,
    CLGradeBBB,
    CLGradeA,
    CLGradeAA,
    CLGradeAAA,
}

/// True exactly for the six concrete cadences; `ClFrequencyUnknown` is refused.
pub fn is_valid_frequency(freq: ClFrequency) -> (r: bool)
    ensures
        r == (freq != ClFrequency::ClFrequencyUnknown),
{
    freq == ClFrequency::ClFrequencyDaily
        || freq == ClFrequency::ClFrequencyWeekly
        || freq == ClFrequency::ClFrequencyMonthly
        || freq == ClFrequency::ClFrequencyQuarterly
        || freq == ClFrequency::ClFrequencySemiannually
        || freq == ClFrequency::ClFrequencyAnnually
}

} // verus!
