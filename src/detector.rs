//! Detectors of error reports and the identity key derived from each.
use vstd::prelude::*;
use vstd::string::StringExecFns;

verus! {

/// One component of a hardware-component path: its name and instance id.
pub struct HcPair {
    pub hc_name: String,
    pub hc_id: String,
}

/// What raised an error report, one variant per detector scheme.
pub enum Detector {
    /// A device named by its device path.
    Dev { device_path: String },
    /// A hardware component named by its ordered component path.
    Hc { hc_list: Vec<HcPair> },
    /// A module of the fault-management daemon.
    Fmd { mod_name: String },
    /// A scheme that has no identity key.
    Unsupported { scheme: String },
    /// An `hc` or `fmd` detector that lacks the field its key is built from.
    Incomplete { scheme: String },
}

pub open spec fn dev_prefix() -> Seq<char> {
    seq!['d', 'e', 'v', ':', '/', '/']
}

pub open spec fn hc_prefix() -> Seq<char> {
    seq!['h', 'c', ':', '/', '/']
}

pub open spec fn fmd_prefix() -> Seq<char> {
    seq!['f', 'm', 'd', ':', '/', '/', '/', 'm', 'o', 'd', 'u', 'l', 'e', '/']
}

/// `/name=id` for one component.
pub open spec fn hc_component(p: HcPair) -> Seq<char> {
    seq!['/'] + p.hc_name@ + seq!['='] + p.hc_id@
}

/// The components of an hc path, each as `/name=id`, in list order.
pub open spec fn hc_path(pairs: Seq<HcPair>) -> Seq<char>
    decreases pairs.len(),
{
    if pairs.len() == 0 {
        Seq::empty()
    } else {
        hc_path(pairs.drop_last()) + hc_component(pairs.last())
    }
}

/// The identity key of a detector; `None` for an unsupported scheme.
pub open spec fn fmri_of(d: Detector) -> Option<Seq<char>> {
    match d {
        Detector::Dev { device_path } => Some(dev_prefix() + device_path@),
        Detector::Hc { hc_list } => Some(hc_prefix() + hc_path(hc_list@)),
        Detector::Fmd { mod_name } => Some(fmd_prefix() + mod_name@),
        Detector::Unsupported { .. } => None,
        Detector::Incomplete { .. } => None,
    }
}

/// Whether `d` is the detector described by a scheme name and the scheme's
/// fields: an `hc` or `fmd` scheme without its field is incomplete.
pub open spec fn detector_of(
    scheme: Seq<char>,
    device_path: Option<String>,
    hc_list: Option<Vec<HcPair>>,
    mod_name: Option<String>,
    d: Detector,
) -> bool {
    if scheme == seq!['d', 'e', 'v'] {
        match device_path {
            Some(p) => d == Detector::Dev { device_path: p },
            None => false,
        }
    } else if scheme == seq!['h', 'c'] {
        match hc_list {
            Some(l) => d matches Detector::Hc { hc_list } && hc_list@ == l@,
            None => d matches Detector::Incomplete { scheme: s } && s@ == scheme,
        }
    } else if scheme == seq!['f', 'm', 'd'] {
        match mod_name {
            Some(m) => d == Detector::Fmd { mod_name: m },
            None => d matches Detector::Incomplete { scheme: s } && s@ == scheme,
        }
    } else {
        d matches Detector::Unsupported { scheme: s } && s@ == scheme
    }
}

/// Whether `a` and `b` hold the same characters.
pub fn str_eq(a: &str, b: &str) -> (r: bool)
    ensures
        r == (a@ == b@),
{
    let n = a.unicode_len();
    if n != b.unicode_len() {
        return false;
    }
    let mut i: usize = 0;
    while i < n
        invariant
            n == a@.len(),
            n == b@.len(),
            i <= n,
            forall|k: int| 0 <= k < i ==> a@[k] == b@[k],
        decreases n - i,
    {
        if a.get_char(i) != b.get_char(i) {
            return false;
        }
        i = i + 1;
    }
    assert(a@ =~= b@);
    true
}

impl Detector {
    /// Builds a detector from its scheme name and the fields of that scheme.
    /// Fails where the scheme is `dev` and the device path is absent.
    pub fn from_fields(
        scheme: String,
        device_path: Option<String>,
        hc_list: Option<Vec<HcPair>>,
        mod_name: Option<String>,
    ) -> (r: Option<Detector>)
        ensures
            r matches Some(d) ==> detector_of(scheme@, device_path, hc_list, mod_name, d),
            r is None <==> (scheme@ == seq!['d', 'e', 'v'] && device_path is None),
    {
        proof {
            reveal_strlit("dev");
            reveal_strlit("hc");
            reveal_strlit("fmd");
            assert("dev"@ =~= seq!['d', 'e', 'v']);
            assert("hc"@ =~= seq!['h', 'c']);
            assert("fmd"@ =~= seq!['f', 'm', 'd']);
        }
        if str_eq(scheme.as_str(), "dev") {
            match device_path {
                Some(p) => Some(Detector::Dev { device_path: p }),
                None => None,
            }
        } else if str_eq(scheme.as_str(), "hc") {
            match hc_list {
                Some(l) => Some(Detector::Hc { hc_list: l }),
                None => Some(Detector::Incomplete { scheme }),
            }
        } else if str_eq(scheme.as_str(), "fmd") {
            match mod_name {
                Some(m) => Some(Detector::Fmd { mod_name: m }),
                None => Some(Detector::Incomplete { scheme }),
            }
        } else {
            Some(Detector::Unsupported { scheme })
        }
    }

    /// The identity key of this detector, or `None` where its scheme has none.
    pub fn get_fmristr(&self) -> (r: Option<String>)
        ensures
            r matches Some(s) ==> fmri_of(*self) == Some(s@),
            r is None ==> fmri_of(*self) is None,
    {
        match self {
            Detector::Dev { device_path } => {
                let mut s = String::from_str("dev://");
                proof {
                    reveal_strlit("dev://");
                }
                assert(s@ =~= dev_prefix());
                s.append(device_path.as_str());
                Some(s)
            },
            Detector::Hc { hc_list } => {
                let mut s = String::from_str("hc://");
                proof {
                    reveal_strlit("hc://");
                    reveal_strlit("/");
                    reveal_strlit("=");
                }
                assert(s@ =~= hc_prefix() + hc_path(hc_list@.subrange(0, 0)));
                let mut i: usize = 0;
                while i < hc_list.len()
                    invariant
                        i <= hc_list@.len(),
                        s@ =~= hc_prefix() + hc_path(hc_list@.subrange(0, i as int)),
                    decreases hc_list@.len() - i,
                {
                    let pair = &hc_list[i];
                    let ghost before = s@;
                    s.append("/");
                    s.append(pair.hc_name.as_str());
                    s.append("=");
                    s.append(pair.hc_id.as_str());
                    proof {
                        reveal_strlit("/");
                        reveal_strlit("=");
                        let pre = hc_list@.subrange(0, i + 1);
                        assert(pre.drop_last() =~= hc_list@.subrange(0, i as int));
                        assert(pre.last() == *pair);
                        assert(s@ =~= before + hc_component(*pair));
                    }
                    i = i + 1;
                }
                assert(hc_list@.subrange(0, i as int) =~= hc_list@);
                Some(s)
            },
            Detector::Fmd { mod_name } => {
                let mut s = String::from_str("fmd:///module/");
                proof {
                    reveal_strlit("fmd:///module/");
                }
                assert(s@ =~= fmd_prefix());
                s.append(mod_name.as_str());
                Some(s)
            },
            Detector::Unsupported { .. } => None,
            Detector::Incomplete { .. } => None,
        }
    }
}

} // verus!
