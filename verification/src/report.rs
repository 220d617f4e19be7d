//! Reports: what the processor layer hands to the protocol layer.

use crate::fisb::FISBData;
use crate::gnss::{GNSS, GNSSModel};
use crate::ownship::Ownship;
use crate::traffic::{Target, TargetModel};
use vstd::prelude::*;

verus! {

/// One item of processed data handed to the protocol layer.
#[derive(Debug, PartialEq)]
pub enum Report {
    Ownship(Ownship),
    Traffic(Target),
    FISB(FISBData),
    GNSS(GNSS),
}

/// The abstract value of a `Report`.
pub ghost enum ReportModel {
    Ownship(Ownship),
    Traffic(TargetModel),
    FISB(Seq<u8>),
    GNSS(GNSSModel),
}

impl DeepView for Report {
    type V = ReportModel;

    open spec fn deep_view(&self) -> ReportModel {
        match self {
            Report::Ownship(o) => ReportModel::Ownship(*o),
            Report::Traffic(t) => ReportModel::Traffic(t.deep_view()),
            Report::FISB(f) => ReportModel::FISB(f.payload@),
            Report::GNSS(g) => ReportModel::GNSS(g.deep_view()),
        }
    }
}

} // verus!
