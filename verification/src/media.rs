//! How a downloaded file compares with what the probe promised.
use vstd::prelude::*;
use crate::text::{chars_of, decimal, push_all, push_str, string_from, string_of, u64_to_chars};
use crate::tools::{opt_view, opt_str_view};
use crate::formats::sat_mul;
use crate::sites::{clean_text, clean_text_spec};

verus! {

/// One difference between the promised and the downloaded media.
#[derive(Debug, Clone)]
pub struct MediaComparisonDetail {
    pub status: String,
    pub expected_label: Option<String>,
    pub actual_label: Option<String>,
}

pub open spec fn detail_view(d: MediaComparisonDetail) -> (Seq<char>, Option<Seq<char>>, Option<Seq<char>>) {
    (d.status@, opt_view(d.expected_label), opt_view(d.actual_label))
}

/// The resolution difference, where both sides are known and they differ:
/// `lower` or `higher`, the promised label (or its pixel count), and the
/// downloaded `W×H`.
pub open spec fn compare_resolution_spec(
    expected_label: Option<Seq<char>>,
    expected_score: Option<u64>,
    width: Option<u64>,
    height: Option<u64>,
) -> Option<(Seq<char>, Option<Seq<char>>, Option<Seq<char>>)> {
    match (expected_score, width, height) {
        (Some(e), Some(w), Some(h)) => {
            let actual = sat_mul(w, h);
            if e == 0 || w == 0 || h == 0 || actual == e {
                None
            } else {
                let label = match expected_label {
                    Some(l) => match clean_text_spec(l) {
                        Some(c) => c,
                        None => decimal(e as nat) + " px"@,
                    },
                    None => decimal(e as nat) + " px"@,
                };
                Some(
                    (
                        if actual < e {
                            "lower"@
                        } else {
                            "higher"@
                        },
                        Some(label),
                        Some(decimal(w as nat) + "×"@ + decimal(h as nat)),
                    ),
                )
            }
        },
        _ => None,
    }
}

pub fn compare_resolution(
    expected_label: Option<&str>,
    expected_score: Option<u64>,
    actual_width: Option<u64>,
    actual_height: Option<u64>,
) -> (r: Option<MediaComparisonDetail>)
    ensures
        (match r {
            Some(d) => Some(detail_view(d)),
            None => None,
        }) == compare_resolution_spec(
            opt_str_view(expected_label),
            expected_score,
            actual_width,
            actual_height,
        ),
{
    let e = match expected_score {
        Some(e) => e,
        None => return None,
    };
    if e == 0 {
        return None;
    }
    let (w, h) = match (actual_width, actual_height) {
        (Some(w), Some(h)) => (w, h),
        _ => return None,
    };
    if w == 0 || h == 0 {
        return None;
    }
    let actual = crate::formats::saturating_mul(w, h);
    if actual == e {
        return None;
    }
    let label = match expected_label {
        Some(l) => match clean_text(l) {
            Some(c) => c,
            None => {
                let mut t = u64_to_chars(e);
                push_str(&mut t, " px");
                string_of(&t)
            },
        },
        None => {
            let mut t = u64_to_chars(e);
            push_str(&mut t, " px");
            string_of(&t)
        },
    };
    let mut a = u64_to_chars(w);
    push_str(&mut a, "×");
    let hd = u64_to_chars(h);
    push_all(&mut a, &hd);
    Some(
        MediaComparisonDetail {
            status: if actual < e {
                string_from("lower")
            } else {
                string_from("higher")
            },
            expected_label: Some(label),
            actual_label: Some(string_of(&a)),
        },
    )
}

} // verus!
