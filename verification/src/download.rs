//! The decisions of a resumable download: what to ask for, what to make of the
//! server's answer, and when the result is complete.

use vstd::prelude::*;
use crate::text::{chars_of, decimal, push_str, push_u64, string_from_chars, trim, trim_range};
use crate::misc::ParsedContentRange;

verus! {

broadcast use vstd::string::group_string_axioms;

/// The `Range` header that resumes a download at `resume_offset`, and the
/// `If-Match` header with the saved entity tag; neither for a fresh download,
/// and no `If-Match` for a blank tag.
pub fn resume_request_headers(resume_offset: u64, etag: Option<&str>) -> (r: (
    Option<String>,
    Option<String>,
))
    ensures
        resume_offset == 0 ==> r.0 is None && r.1 is None,
        resume_offset > 0 ==> (r.0 matches Some(range) && range@ == "bytes="@ + decimal(
            resume_offset as nat,
        ) + "-"@),
        resume_offset > 0 ==> match etag {
            Some(e) => if trim(e@).len() > 0 {
                r.1 matches Some(m) && m@ == e@
            } else {
                r.1 is None
            },
            None => r.1 is None,
        },
{
    if resume_offset == 0 {
        return (None, None);
    }
    let mut range: Vec<char> = Vec::new();
    push_str(&mut range, "bytes=");
    push_u64(&mut range, resume_offset);
    push_str(&mut range, "-");
    let if_match = match etag {
        Some(e) => {
            let c = chars_of(e);
            let (a, b) = trim_range(&c, 0, c.len());
            assert(c@.subrange(0, c@.len() as int) =~= c@);
            if b > a {
                Some(e.to_string())
            } else {
                None
            }
        },
        None => None,
    };
    (Some(string_from_chars(range)), if_match)
}

/// The status shown while downloading: a resuming message when resuming.
pub fn download_status_text(resume_offset: u64, status: &str) -> (r: String)
    ensures
        r@ == if resume_offset > 0 {
            "正在续传素材包..."@
        } else {
            status@
        },
{
    if resume_offset > 0 {
        "正在续传素材包...".to_string()
    } else {
        status.to_string()
    }
}

/// What to do with the server's answer to a download request.
pub enum ResumeDecision {
    /// Discard the partial download and ask again from the start.
    Restart,
    /// The partial file already holds the whole object of `total` bytes.
    AlreadyComplete { total: u64 },
    /// Give up with `message`; `cleared` tells whether the partial download was
    /// discarded first.
    Fail { message: String, cleared: bool },
    /// Write the response body to the partial file, appended after
    /// `active_resume_offset` bytes or replacing it, expecting `total` bytes in
    /// all when known; `etag` is the entity tag to save.
    Write { append: bool, total: Option<u64>, active_resume_offset: u64, etag: Option<String> },
}

/// `HTTP 2xx`.
pub open spec fn is_success(status: u16) -> bool {
    200 <= status <= 299
}

/// `BOS download failed (HTTP {status})`
pub open spec fn http_failure(status: u16) -> Seq<char> {
    "BOS download failed (HTTP "@ + decimal(status as nat) + ")"@
}

/// The decision for the answer `status` to a request made at `resume_offset`
/// on the attempt `restart_attempt` (0 or 1).
///
/// `412` or a `416` that does not confirm the partial file is complete discards
/// the partial download and restarts on the first attempt; on the second the
/// request fails.  Another failure status fails.  A `206` answer to a resumed
/// request must start at the resume offset and keep the saved entity tag, else
/// the partial download is discarded and restarted (or the request fails on the
/// second attempt).  Otherwise the body is written; the total is the range's
/// total, else the content length (after the resumed bytes).
pub open spec fn decision_spec(
    status: u16,
    resume_offset: u64,
    restart_attempt: u32,
    range_start: Option<u64>,
    range_total: Option<u64>,
    previous_etag: Option<Seq<char>>,
    response_etag: Option<Seq<char>>,
    content_length: Option<u64>,
) -> (int, Seq<char>, bool, bool, Option<int>, int) {
    // (kind, message, cleared, append, total, active offset); kind: 0 restart,
    // 1 already complete, 2 fail, 3 write
    if status == 412 && restart_attempt == 0 {
        (0, seq![], true, false, None, 0)
    } else if status == 412 {
        (2, http_failure(status), true, false, None, 0)
    } else if status == 416 && resume_offset > 0 && range_total == Some(resume_offset) {
        (1, seq![], false, false, Some(resume_offset as int), 0)
    } else if status == 416 && restart_attempt == 0 {
        (0, seq![], true, false, None, 0)
    } else if status == 416 {
        (2, http_failure(status), true, false, None, 0)
    } else if !is_success(status) {
        (2, http_failure(status), false, false, None, 0)
    } else {
        let append = resume_offset > 0 && status == 206;
        if append && range_start != Some(resume_offset) {
            if restart_attempt == 0 {
                (0, seq![], true, false, None, 0)
            } else {
                (2, "BOS resume response range is invalid"@, true, false, None, 0)
            }
        } else if append && previous_etag is Some && response_etag is Some && previous_etag
            != response_etag {
            if restart_attempt == 0 {
                (0, seq![], true, false, None, 0)
            } else {
                (2, "BOS object changed while resuming download"@, true, false, None, 0)
            }
        } else {
            let total = match range_total {
                Some(t) => Some(t as int),
                None => match content_length {
                    Some(l) => Some(
                        if append {
                            if resume_offset + l > u64::MAX {
                                u64::MAX as int
                            } else {
                                resume_offset + l
                            }
                        } else {
                            l as int
                        },
                    ),
                    None => None,
                },
            };
            (
                3,
                seq![],
                false,
                append,
                total,
                if append {
                    resume_offset as int
                } else {
                    0
                },
            )
        }
    }
}

pub open spec fn opt_str_view(o: Option<String>) -> Option<Seq<char>> {
    match o {
        Some(s) => Some(s@),
        None => None,
    }
}

pub open spec fn opt_u64_int(o: Option<u64>) -> Option<int> {
    match o {
        Some(v) => Some(v as int),
        None => None,
    }
}

fn failure_message(status: u16) -> (r: String)
    ensures
        r@ == http_failure(status),
{
    let mut m: Vec<char> = Vec::new();
    push_str(&mut m, "BOS download failed (HTTP ");
    push_u64(&mut m, status as u64);
    push_str(&mut m, ")");
    string_from_chars(m)
}

fn same_etag(a: &Option<String>, b: &Option<String>) -> (r: bool)
    ensures
        r == (opt_str_view(*a) == opt_str_view(*b)),
{
    match (a, b) {
        (Some(x), Some(y)) => crate::edit::chars_eq(&chars_of(x.as_str()), &chars_of(y.as_str())),
        (None, None) => true,
        _ => false,
    }
}

/// The decision for the server's answer to a download request (see
/// `decision_spec`); the entity tag to save is the answer's, else the saved one.
pub fn classify_download_response(
    status: u16,
    resume_offset: u64,
    restart_attempt: u32,
    content_range: Option<ParsedContentRange>,
    previous_etag: Option<String>,
    response_etag: Option<String>,
    content_length: Option<u64>,
) -> (r: ResumeDecision)
    ensures
        ({
            let (range_start, range_total) = match content_range {
                Some(c) => (c.start, c.total),
                None => (None, None),
            };
            let d = decision_spec(
                status,
                resume_offset,
                restart_attempt,
                range_start,
                range_total,
                opt_str_view(previous_etag),
                opt_str_view(response_etag),
                content_length,
            );
            match r {
                ResumeDecision::Restart => d.0 == 0,
                ResumeDecision::AlreadyComplete { total } => d.0 == 1 && d.4 == Some(total as int),
                ResumeDecision::Fail { message, cleared } => d.0 == 2 && message@ == d.1 && cleared
                    == d.2,
                ResumeDecision::Write { append, total, active_resume_offset, etag } => d.0 == 3
                    && append == d.3 && opt_u64_int(total) == d.4 && active_resume_offset == d.5
                    && opt_str_view(etag) == match response_etag {
                    Some(e) => Some(e@),
                    None => opt_str_view(previous_etag),
                },
            }
        }),
{
    let (range_start, range_total) = match &content_range {
        Some(c) => (c.start, c.total),
        None => (None, None),
    };
    if status == 412 {
        if restart_attempt == 0 {
            return ResumeDecision::Restart;
        }
        return ResumeDecision::Fail { message: failure_message(status), cleared: true };
    }
    if status == 416 {
        if resume_offset > 0 && range_total == Some(resume_offset) {
            return ResumeDecision::AlreadyComplete { total: resume_offset };
        }
        if restart_attempt == 0 {
            return ResumeDecision::Restart;
        }
        return ResumeDecision::Fail { message: failure_message(status), cleared: true };
    }
    if !(200 <= status && status <= 299) {
        return ResumeDecision::Fail { message: failure_message(status), cleared: false };
    }
    let append = resume_offset > 0 && status == 206;
    if append && range_start != Some(resume_offset) {
        if restart_attempt == 0 {
            return ResumeDecision::Restart;
        }
        return ResumeDecision::Fail {
            message: "BOS resume response range is invalid".to_string(),
            cleared: true,
        };
    }
    if append && previous_etag.is_some() && response_etag.is_some() && !same_etag(
        &previous_etag,
        &response_etag,
    ) {
        if restart_attempt == 0 {
            return ResumeDecision::Restart;
        }
        return ResumeDecision::Fail {
            message: "BOS object changed while resuming download".to_string(),
            cleared: true,
        };
    }
    let total = match range_total {
        Some(t) => Some(t),
        None => match content_length {
            Some(l) => Some(
                if append {
                    resume_offset.saturating_add(l)
                } else {
                    l
                },
            ),
            None => None,
        },
    };
    let etag = match response_etag {
        Some(e) => Some(e),
        None => previous_etag,
    };
    ResumeDecision::Write {
        append,
        total,
        active_resume_offset: if append {
            resume_offset
        } else {
            0
        },
        etag,
    }
}

/// An error when the finished file does not have the expected size.
pub fn check_download_size(final_size: u64, total: Option<u64>) -> (r: Result<(), String>)
    ensures
        r is Ok <==> !(total matches Some(t) && t != final_size),
        r matches Err(m) ==> total matches Some(t) && m@ == "BOS download incomplete: received "@
            + decimal(final_size as nat) + " of "@ + decimal(t as nat) + " bytes"@,
{
    match total {
        Some(t) => {
            if final_size != t {
                let mut m: Vec<char> = Vec::new();
                push_str(&mut m, "BOS download incomplete: received ");
                push_u64(&mut m, final_size);
                push_str(&mut m, " of ");
                push_u64(&mut m, t);
                push_str(&mut m, " bytes");
                Err(string_from_chars(m))
            } else {
                Ok(())
            }
        },
        None => Ok(()),
    }
}

} // verus!
