//! The sentence-type registry: a closed mapping from the three-byte message
//! id of a sentence to its tag.  Unrecognised but well-formed ids map to
//! [`SentenceType::Unknown`]; they are expected traffic, not errors.

use vstd::prelude::*;

verus! {

/// One tag per standard NMEA message id.
#[derive(PartialEq, Eq, Structural, Debug, Clone, Copy)]
pub enum SentenceType {
    Unknown,
    AAM,
    ABK,
    ACA,
    ACK,
    ACS,
    AIR,
    ALM,
    ALR,
    APA,
    APB,
    ASD,
    BEC,
    BOD,
    BWC,
    BWR,
    BWW,
    CUR,
    DBK,
    DBS,
    DBT,
    DCN,
    DPT,
    DSC,
    DSE,
    DSI,
    DSR,
    DTM,
    FSI,
    GBS,
    GGA,
    GLC,
    GLL,
    GMP,
    GNS,
    GRS,
    GSA,
    GST,
    GSV,
    GTD,
    GXA,
    HDG,
    HDM,
    HDT,
    HMR,
    HMS,
    HSC,
    HTC,
    HTD,
    LCD,
    LRF,
    LRI,
    LR1,
    LR2,
    LR3,
    MLA,
    MSK,
    MSS,
    MWD,
    MTW,
    MWV,
    OLN,
    OSD,
    ROO,
    RMA,
    RMB,
    RMC,
    ROT,
    RPM,
    RSA,
    RSD,
    RTE,
    SFI,
    SSD,
    STN,
    TLB,
    TLL,
    TRF,
    TTM,
    TUT,
    TXT,
    VBW,
    VDM,
    VDO,
    VDR,
    VHW,
    VLW,
    VPW,
    VSD,
    VTG,
    VWR,
    WCV,
    WNC,
    WPL,
    XDR,
    XTE,
    XTR,
    ZDA,
    ZDL,
    ZFO,
    ZTG,
}

/// Whether every byte of `s` is seven-bit ASCII.
pub open spec fn all_ascii(s: Seq<u8>) -> bool {
    forall|i: int| 0 <= i < s.len() ==> #[trigger] s[i] < 128
}

/// The tag a three-byte message id maps to; anything not in the registry
/// maps to `Unknown`.
pub open spec fn spec_sentence_type(s: Seq<u8>) -> SentenceType {
    if s == seq![65u8, 65u8, 77u8] {
        SentenceType::AAM
    } else if s == seq![65u8, 66u8, 75u8] {
        SentenceType::ABK
    } else if s == seq![65u8, 67u8, 65u8] {
        SentenceType::ACA
    } else if s == seq![65u8, 67u8, 75u8] {
        SentenceType::ACK
    } else if s == seq![65u8, 67u8, 83u8] {
        SentenceType::ACS
    } else if s == seq![65u8, 73u8, 82u8] {
        SentenceType::AIR
    } else if s == seq![65u8, 76u8, 77u8] {
        SentenceType::ALM
    } else if s == seq![65u8, 76u8, 82u8] {
        SentenceType::ALR
    } else if s == seq![65u8, 80u8, 65u8] {
        SentenceType::APA
    } else if s == seq![65u8, 80u8, 66u8] {
        SentenceType::APB
    } else if s == seq![65u8, 83u8, 68u8] {
        SentenceType::ASD
    } else if s == seq![66u8, 69u8, 67u8] {
        SentenceType::BEC
    } else if s == seq![66u8, 79u8, 68u8] {
        SentenceType::BOD
    } else if s == seq![66u8, 87u8, 67u8] {
        SentenceType::BWC
    } else if s == seq![66u8, 87u8, 82u8] {
        SentenceType::BWR
    } else if s == seq![66u8, 87u8, 87u8] {
        SentenceType::BWW
    } else if s == seq![67u8, 85u8, 82u8] {
        SentenceType::CUR
    } else if s == seq![68u8, 66u8, 75u8] {
        SentenceType::DBK
    } else if s == seq![68u8, 66u8, 83u8] {
        SentenceType::DBS
    } else if s == seq![68u8, 66u8, 84u8] {
        SentenceType::DBT
    } else if s == seq![68u8, 67u8, 78u8] {
        SentenceType::DCN
    } else if s == seq![68u8, 80u8, 84u8] {
        SentenceType::DPT
    } else if s == seq![68u8, 83u8, 67u8] {
        SentenceType::DSC
    } else if s == seq![68u8, 83u8, 69u8] {
        SentenceType::DSE
    } else if s == seq![68u8, 83u8, 73u8] {
        SentenceType::DSI
    } else if s == seq![68u8, 83u8, 82u8] {
        SentenceType::DSR
    } else if s == seq![68u8, 84u8, 77u8] {
        SentenceType::DTM
    } else if s == seq![70u8, 83u8, 73u8] {
        SentenceType::FSI
    } else if s == seq![71u8, 66u8, 83u8] {
        SentenceType::GBS
    } else if s == seq![71u8, 71u8, 65u8] {
        SentenceType::GGA
    } else if s == seq![71u8, 76u8, 67u8] {
        SentenceType::GLC
    } else if s == seq![71u8, 76u8, 76u8] {
        SentenceType::GLL
    } else if s == seq![71u8, 77u8, 80u8] {
        SentenceType::GMP
    } else if s == seq![71u8, 78u8, 83u8] {
        SentenceType::GNS
    } else if s == seq![71u8, 82u8, 83u8] {
        SentenceType::GRS
    } else if s == seq![71u8, 83u8, 65u8] {
        SentenceType::GSA
    } else if s == seq![71u8, 83u8, 84u8] {
        SentenceType::GST
    } else if s == seq![71u8, 83u8, 86u8] {
        SentenceType::GSV
    } else if s == seq![71u8, 84u8, 68u8] {
        SentenceType::GTD
    } else if s == seq![71u8, 88u8, 65u8] {
        SentenceType::GXA
    } else if s == seq![72u8, 68u8, 71u8] {
        SentenceType::HDG
    } else if s == seq![72u8, 68u8, 77u8] {
        SentenceType::HDM
    } else if s == seq![72u8, 68u8, 84u8] {
        SentenceType::HDT
    } else if s == seq![72u8, 77u8, 82u8] {
        SentenceType::HMR
    } else if s == seq![72u8, 77u8, 83u8] {
        SentenceType::HMS
    } else if s == seq![72u8, 83u8, 67u8] {
        SentenceType::HSC
    } else if s == seq![72u8, 84u8, 67u8] {
        SentenceType::HTC
    } else if s == seq![72u8, 84u8, 68u8] {
        SentenceType::HTD
    } else if s == seq![76u8, 67u8, 68u8] {
        SentenceType::LCD
    } else if s == seq![76u8, 82u8, 70u8] {
        SentenceType::LRF
    } else if s == seq![76u8, 82u8, 73u8] {
        SentenceType::LRI
    } else if s == seq![76u8, 82u8, 49u8] {
        SentenceType::LR1
    } else if s == seq![76u8, 82u8, 50u8] {
        SentenceType::LR2
    } else if s == seq![76u8, 82u8, 51u8] {
        SentenceType::LR3
    } else if s == seq![77u8, 76u8, 65u8] {
        SentenceType::MLA
    } else if s == seq![77u8, 83u8, 75u8] {
        SentenceType::MSK
    } else if s == seq![77u8, 83u8, 83u8] {
        SentenceType::MSS
    } else if s == seq![77u8, 87u8, 68u8] {
        SentenceType::MWD
    } else if s == seq![77u8, 84u8, 87u8] {
        SentenceType::MTW
    } else if s == seq![77u8, 87u8, 86u8] {
        SentenceType::MWV
    } else if s == seq![79u8, 76u8, 78u8] {
        SentenceType::OLN
    } else if s == seq![79u8, 83u8, 68u8] {
        SentenceType::OSD
    } else if s == seq![82u8, 79u8, 79u8] {
        SentenceType::ROO
    } else if s == seq![82u8, 77u8, 65u8] {
        SentenceType::RMA
    } else if s == seq![82u8, 77u8, 66u8] {
        SentenceType::RMB
    } else if s == seq![82u8, 77u8, 67u8] {
        SentenceType::RMC
    } else if s == seq![82u8, 79u8, 84u8] {
        SentenceType::ROT
    } else if s == seq![82u8, 80u8, 77u8] {
        SentenceType::RPM
    } else if s == seq![82u8, 83u8, 65u8] {
        SentenceType::RSA
    } else if s == seq![82u8, 83u8, 68u8] {
        SentenceType::RSD
    } else if s == seq![82u8, 84u8, 69u8] {
        SentenceType::RTE
    } else if s == seq![83u8, 70u8, 73u8] {
        SentenceType::SFI
    } else if s == seq![83u8, 83u8, 68u8] {
        SentenceType::SSD
    } else if s == seq![83u8, 84u8, 78u8] {
        SentenceType::STN
    } else if s == seq![84u8, 76u8, 66u8] {
        SentenceType::TLB
    } else if s == seq![84u8, 76u8, 76u8] {
        SentenceType::TLL
    } else if s == seq![84u8, 82u8, 70u8] {
        SentenceType::TRF
    } else if s == seq![84u8, 84u8, 77u8] {
        SentenceType::TTM
    } else if s == seq![84u8, 85u8, 84u8] {
        SentenceType::TUT
    } else if s == seq![84u8, 88u8, 84u8] {
        SentenceType::TXT
    } else if s == seq![86u8, 66u8, 87u8] {
        SentenceType::VBW
    } else if s == seq![86u8, 68u8, 77u8] {
        SentenceType::VDM
    } else if s == seq![86u8, 68u8, 79u8] {
        SentenceType::VDO
    } else if s == seq![86u8, 68u8, 82u8] {
        SentenceType::VDR
    } else if s == seq![86u8, 72u8, 87u8] {
        SentenceType::VHW
    } else if s == seq![86u8, 76u8, 87u8] {
        SentenceType::VLW
    } else if s == seq![86u8, 80u8, 87u8] {
        SentenceType::VPW
    } else if s == seq![86u8, 83u8, 68u8] {
        SentenceType::VSD
    } else if s == seq![86u8, 84u8, 71u8] {
        SentenceType::VTG
    } else if s == seq![86u8, 87u8, 82u8] {
        SentenceType::VWR
    } else if s == seq![87u8, 67u8, 86u8] {
        SentenceType::WCV
    } else if s == seq![87u8, 78u8, 67u8] {
        SentenceType::WNC
    } else if s == seq![87u8, 80u8, 76u8] {
        SentenceType::WPL
    } else if s == seq![88u8, 68u8, 82u8] {
        SentenceType::XDR
    } else if s == seq![88u8, 84u8, 69u8] {
        SentenceType::XTE
    } else if s == seq![88u8, 84u8, 82u8] {
        SentenceType::XTR
    } else if s == seq![90u8, 68u8, 65u8] {
        SentenceType::ZDA
    } else if s == seq![90u8, 68u8, 76u8] {
        SentenceType::ZDL
    } else if s == seq![90u8, 70u8, 79u8] {
        SentenceType::ZFO
    } else if s == seq![90u8, 84u8, 71u8] {
        SentenceType::ZTG
    } else {
        SentenceType::Unknown
    }
}

impl SentenceType {
    /// Maps a raw three-byte message id to its tag.  A non-ASCII byte in the
    /// id is rejected; an ASCII id outside the registry maps to `Unknown`.
    pub fn try_from(s: &[u8]) -> (r: Result<SentenceType, &'static str>)
        ensures
            all_ascii(s@) ==> r == Ok::<SentenceType, &'static str>(spec_sentence_type(s@)),
            !all_ascii(s@) ==> r is Err,
    {
        let mut i: usize = 0;
        while i < s.len()
            invariant
                0 <= i <= s@.len(),
                forall|j: int| 0 <= j < i ==> #[trigger] s@[j] < 128,
            decreases s@.len() - i,
        {
            if s[i] >= 128 {
                return Err("invalid header");
            }
            i = i + 1;
        }
        if eq3(s, 65, 65, 77) {
            Ok(SentenceType::AAM)
        } else if eq3(s, 65, 66, 75) {
            Ok(SentenceType::ABK)
        } else if eq3(s, 65, 67, 65) {
            Ok(SentenceType::ACA)
        } else if eq3(s, 65, 67, 75) {
            Ok(SentenceType::ACK)
        } else if eq3(s, 65, 67, 83) {
            Ok(SentenceType::ACS)
        } else if eq3(s, 65, 73, 82) {
            Ok(SentenceType::AIR)
        } else if eq3(s, 65, 76, 77) {
            Ok(SentenceType::ALM)
        } else if eq3(s, 65, 76, 82) {
            Ok(SentenceType::ALR)
        } else if eq3(s, 65, 80, 65) {
            Ok(SentenceType::APA)
        } else if eq3(s, 65, 80, 66) {
            Ok(SentenceType::APB)
        } else if eq3(s, 65, 83, 68) {
            Ok(SentenceType::ASD)
        } else if eq3(s, 66, 69, 67) {
            Ok(SentenceType::BEC)
        } else if eq3(s, 66, 79, 68) {
            Ok(SentenceType::BOD)
        } else if eq3(s, 66, 87, 67) {
            Ok(SentenceType::BWC)
        } else if eq3(s, 66, 87, 82) {
            Ok(SentenceType::BWR)
        } else if eq3(s, 66, 87, 87) {
            Ok(SentenceType::BWW)
        } else if eq3(s, 67, 85, 82) {
            Ok(SentenceType::CUR)
        } else if eq3(s, 68, 66, 75) {
            Ok(SentenceType::DBK)
        } else if eq3(s, 68, 66, 83) {
            Ok(SentenceType::DBS)
        } else if eq3(s, 68, 66, 84) {
            Ok(SentenceType::DBT)
        } else if eq3(s, 68, 67, 78) {
            Ok(SentenceType::DCN)
        } else if eq3(s, 68, 80, 84) {
            Ok(SentenceType::DPT)
        } else if eq3(s, 68, 83, 67) {
            Ok(SentenceType::DSC)
        } else if eq3(s, 68, 83, 69) {
            Ok(SentenceType::DSE)
        } else if eq3(s, 68, 83, 73) {
            Ok(SentenceType::DSI)
        } else if eq3(s, 68, 83, 82) {
            Ok(SentenceType::DSR)
        } else if eq3(s, 68, 84, 77) {
            Ok(SentenceType::DTM)
        } else if eq3(s, 70, 83, 73) {
            Ok(SentenceType::FSI)
        } else if eq3(s, 71, 66, 83) {
            Ok(SentenceType::GBS)
        } else if eq3(s, 71, 71, 65) {
            Ok(SentenceType::GGA)
        } else if eq3(s, 71, 76, 67) {
            Ok(SentenceType::GLC)
        } else if eq3(s, 71, 76, 76) {
            Ok(SentenceType::GLL)
        } else if eq3(s, 71, 77, 80) {
            Ok(SentenceType::GMP)
        } else if eq3(s, 71, 78, 83) {
            Ok(SentenceType::GNS)
        } else if eq3(s, 71, 82, 83) {
            Ok(SentenceType::GRS)
        } else if eq3(s, 71, 83, 65) {
            Ok(SentenceType::GSA)
        } else if eq3(s, 71, 83, 84) {
            Ok(SentenceType::GST)
        } else if eq3(s, 71, 83, 86) {
            Ok(SentenceType::GSV)
        } else if eq3(s, 71, 84, 68) {
            Ok(SentenceType::GTD)
        } else if eq3(s, 71, 88, 65) {
            Ok(SentenceType::GXA)
        } else if eq3(s, 72, 68, 71) {
            Ok(SentenceType::HDG)
        } else if eq3(s, 72, 68, 77) {
            Ok(SentenceType::HDM)
        } else if eq3(s, 72, 68, 84) {
            Ok(SentenceType::HDT)
        } else if eq3(s, 72, 77, 82) {
            Ok(SentenceType::HMR)
        } else if eq3(s, 72, 77, 83) {
            Ok(SentenceType::HMS)
        } else if eq3(s, 72, 83, 67) {
            Ok(SentenceType::HSC)
        } else if eq3(s, 72, 84, 67) {
            Ok(SentenceType::HTC)
        } else if eq3(s, 72, 84, 68) {
            Ok(SentenceType::HTD)
        } else if eq3(s, 76, 67, 68) {
            Ok(SentenceType::LCD)
        } else if eq3(s, 76, 82, 70) {
            Ok(SentenceType::LRF)
        } else if eq3(s, 76, 82, 73) {
            Ok(SentenceType::LRI)
        } else if eq3(s, 76, 82, 49) {
            Ok(SentenceType::LR1)
        } else if eq3(s, 76, 82, 50) {
            Ok(SentenceType::LR2)
        } else if eq3(s, 76, 82, 51) {
            Ok(SentenceType::LR3)
        } else if eq3(s, 77, 76, 65) {
            Ok(SentenceType::MLA)
        } else if eq3(s, 77, 83, 75) {
            Ok(SentenceType::MSK)
        } else if eq3(s, 77, 83, 83) {
            Ok(SentenceType::MSS)
        } else if eq3(s, 77, 87, 68) {
            Ok(SentenceType::MWD)
        } else if eq3(s, 77, 84, 87) {
            Ok(SentenceType::MTW)
        } else if eq3(s, 77, 87, 86) {
            Ok(SentenceType::MWV)
        } else if eq3(s, 79, 76, 78) {
            Ok(SentenceType::OLN)
        } else if eq3(s, 79, 83, 68) {
            Ok(SentenceType::OSD)
        } else if eq3(s, 82, 79, 79) {
            Ok(SentenceType::ROO)
        } else if eq3(s, 82, 77, 65) {
            Ok(SentenceType::RMA)
        } else if eq3(s, 82, 77, 66) {
            Ok(SentenceType::RMB)
        } else if eq3(s, 82, 77, 67) {
            Ok(SentenceType::RMC)
        } else if eq3(s, 82, 79, 84) {
            Ok(SentenceType::ROT)
        } else if eq3(s, 82, 80, 77) {
            Ok(SentenceType::RPM)
        } else if eq3(s, 82, 83, 65) {
            Ok(SentenceType::RSA)
        } else if eq3(s, 82, 83, 68) {
            Ok(SentenceType::RSD)
        } else if eq3(s, 82, 84, 69) {
            Ok(SentenceType::RTE)
        } else if eq3(s, 83, 70, 73) {
            Ok(SentenceType::SFI)
        } else if eq3(s, 83, 83, 68) {
            Ok(SentenceType::SSD)
        } else if eq3(s, 83, 84, 78) {
            Ok(SentenceType::STN)
        } else if eq3(s, 84, 76, 66) {
            Ok(SentenceType::TLB)
        } else if eq3(s, 84, 76, 76) {
            Ok(SentenceType::TLL)
        } else if eq3(s, 84, 82, 70) {
            Ok(SentenceType::TRF)
        } else if eq3(s, 84, 84, 77) {
            Ok(SentenceType::TTM)
        } else if eq3(s, 84, 85, 84) {
            Ok(SentenceType::TUT)
        } else if eq3(s, 84, 88, 84) {
            Ok(SentenceType::TXT)
        } else if eq3(s, 86, 66, 87) {
            Ok(SentenceType::VBW)
        } else if eq3(s, 86, 68, 77) {
            Ok(SentenceType::VDM)
        } else if eq3(s, 86, 68, 79) {
            Ok(SentenceType::VDO)
        } else if eq3(s, 86, 68, 82) {
            Ok(SentenceType::VDR)
        } else if eq3(s, 86, 72, 87) {
            Ok(SentenceType::VHW)
        } else if eq3(s, 86, 76, 87) {
            Ok(SentenceType::VLW)
        } else if eq3(s, 86, 80, 87) {
            Ok(SentenceType::VPW)
        } else if eq3(s, 86, 83, 68) {
            Ok(SentenceType::VSD)
        } else if eq3(s, 86, 84, 71) {
            Ok(SentenceType::VTG)
        } else if eq3(s, 86, 87, 82) {
            Ok(SentenceType::VWR)
        } else if eq3(s, 87, 67, 86) {
            Ok(SentenceType::WCV)
        } else if eq3(s, 87, 78, 67) {
            Ok(SentenceType::WNC)
        } else if eq3(s, 87, 80, 76) {
            Ok(SentenceType::WPL)
        } else if eq3(s, 88, 68, 82) {
            Ok(SentenceType::XDR)
        } else if eq3(s, 88, 84, 69) {
            Ok(SentenceType::XTE)
        } else if eq3(s, 88, 84, 82) {
            Ok(SentenceType::XTR)
        } else if eq3(s, 90, 68, 65) {
            Ok(SentenceType::ZDA)
        } else if eq3(s, 90, 68, 76) {
            Ok(SentenceType::ZDL)
        } else if eq3(s, 90, 70, 79) {
            Ok(SentenceType::ZFO)
        } else if eq3(s, 90, 84, 71) {
            Ok(SentenceType::ZTG)
        } else {
            Ok(SentenceType::Unknown)
        }
    }
}

/// Whether `s` is exactly the three bytes `a`, `b`, `c`.
fn eq3(s: &[u8], a: u8, b: u8, c: u8) -> (r: bool)
    ensures
        r == (s@ == seq![a, b, c]),
{
    let r = s.len() == 3 && s[0] == a && s[1] == b && s[2] == c;
    proof {
        if r {
            assert(s@ =~= seq![a, b, c]);
        } else {
            if s@ == seq![a, b, c] {
                assert(s@.len() == 3);
                assert(s@[0] == a && s@[1] == b && s@[2] == c);
            }
        }
    }
    r
}

} // verus!
