//! Passing a hypeddit download gate without its social steps: reading the
//! gate's form out of the page, building the two requests that ask for the
//! file, and reading the answer.

use vstd::prelude::*;
use vstd::utf8::*;
use vstd::string::StringSliceAdditionalSpecFns;
use crate::gate::{
    attr_after, attr_window_fits, attr_window_ok, extract_input_value, extract_meta_content,
    input_value_spec, input_window_fits, input_window_ok, meta_content_spec, meta_window_fits,
    name_attr, META_WINDOW,
};
use crate::text::{
    append_str, find_bytes, first_match, lemma_ascii_boundaries, lemma_ascii_str, lemma_found,
    lemma_str_valid, lemma_string_bytes, piece,
};
use crate::url_parts::{parse_url, parsed_url};

verus! {

/// How far after `id="gvt"` its value is searched for.
pub const GVT_WINDOW: usize = 100;

/// The hidden fields of a hypeddit gate page that the download request needs.
pub struct HypedditForm {
    pub csrf: String,
    pub gate_id: String,
    pub wrndk: String,
    pub file_uid: String,
    pub steps: String,
    pub gvt: String,
}

impl HypedditForm {
    /// The fields' bytes: csrf token, gate id, wrndk, file uid, steps, gvt.
    pub open spec fn bytes(&self) -> (Seq<u8>, Seq<u8>, Seq<u8>, Seq<u8>, Seq<u8>, Seq<u8>) {
        (
            encode_utf8(self.csrf@),
            encode_utf8(self.gate_id@),
            encode_utf8(self.wrndk@),
            encode_utf8(self.file_uid@),
            encode_utf8(self.steps@),
            encode_utf8(self.gvt@),
        )
    }
}

/// The `gvt` value: the `gvt` input field, else the quoted value within 100
/// bytes after `id="gvt"`.
pub open spec fn gvt_spec(h: Seq<u8>) -> Option<Seq<u8>> {
    match input_value_spec(h, "gvt".spec_bytes()) {
        Some(v) => Some(v),
        None => attr_after(h, "id=\"gvt\"".spec_bytes(), GVT_WINDOW as int, "value=\"".spec_bytes()),
    }
}

/// The form of a gate page, by the bytes of the page: it is there when the
/// csrf token, gate id, wrndk, file uid and gvt are all found; the steps
/// default to empty.
pub open spec fn hypeddit_form_spec(h: Seq<u8>) -> Option<
    (Seq<u8>, Seq<u8>, Seq<u8>, Seq<u8>, Seq<u8>, Seq<u8>),
> {
    match (
        meta_content_spec(h, "csrf-token".spec_bytes()),
        input_value_spec(h, "fan_gate_id".spec_bytes()),
        input_value_spec(h, "wrndk".spec_bytes()),
        input_value_spec(h, "current_download_file_listner".spec_bytes()),
        gvt_spec(h),
    ) {
        (Some(csrf), Some(gate_id), Some(wrndk), Some(file_uid), Some(gvt)) => {
            let steps = match input_value_spec(h, "nwSteps".spec_bytes()) {
                Some(s) => s,
                None => Seq::<u8>::empty(),
            };
            Some((csrf, gate_id, wrndk, file_uid, steps, gvt))
        },
        _ => None,
    }
}

/// Every window that reading the form cuts out of the page (as far as the
/// reading gets) starts and ends on character boundaries.
pub open spec fn hypeddit_windows_ok(h: Seq<u8>) -> bool {
    &&& attr_window_ok(h, name_attr("csrf-token".spec_bytes()), META_WINDOW as int)
    &&& (meta_content_spec(h, "csrf-token".spec_bytes()) is Some ==> {
        &&& input_window_ok(h, "fan_gate_id".spec_bytes())
        &&& (input_value_spec(h, "fan_gate_id".spec_bytes()) is Some ==> {
            &&& input_window_ok(h, "wrndk".spec_bytes())
            &&& (input_value_spec(h, "wrndk".spec_bytes()) is Some ==> {
                &&& input_window_ok(h, "current_download_file_listner".spec_bytes())
                &&& (input_value_spec(h, "current_download_file_listner".spec_bytes()) is Some
                    ==> {
                    &&& input_window_ok(h, "nwSteps".spec_bytes())
                    &&& input_window_ok(h, "gvt".spec_bytes())
                    &&& (input_value_spec(h, "gvt".spec_bytes()) is None ==> attr_window_ok(
                        h,
                        "id=\"gvt\"".spec_bytes(),
                        GVT_WINDOW as int,
                    ))
                })
            })
        })
    })
}

/// Whether `hypeddit_form` can cut every window it needs out of `html`.
pub fn hypeddit_windows_fit(html: &str) -> (r: bool)
    ensures
        r == hypeddit_windows_ok(html.spec_bytes()),
{
    if !meta_window_fits(html, "csrf-token") {
        return false;
    }
    if extract_meta_content(html, "csrf-token").is_none() {
        return true;
    }
    if !input_window_fits(html, "fan_gate_id") {
        return false;
    }
    if extract_input_value(html, "fan_gate_id").is_none() {
        return true;
    }
    if !input_window_fits(html, "wrndk") {
        return false;
    }
    if extract_input_value(html, "wrndk").is_none() {
        return true;
    }
    if !input_window_fits(html, "current_download_file_listner") {
        return false;
    }
    if extract_input_value(html, "current_download_file_listner").is_none() {
        return true;
    }
    if !input_window_fits(html, "nwSteps") || !input_window_fits(html, "gvt") {
        return false;
    }
    if extract_input_value(html, "gvt").is_none() {
        return attr_window_fits(html, "id=\"gvt\"".as_bytes(), GVT_WINDOW);
    }
    true
}

/// Reads the hidden fields of a hypeddit gate page: the csrf token (a meta
/// tag), its gate id, wrndk, file uid and steps (hidden inputs; the steps
/// may be missing), and gvt (a hidden input, or an element with
/// `id="gvt"`).
pub fn hypeddit_form(html: &str) -> (r: Option<HypedditForm>)
    requires
        hypeddit_windows_ok(html.spec_bytes()),
    ensures
        match r {
            Some(f) => hypeddit_form_spec(html.spec_bytes()) == Some(f.bytes()),
            None => hypeddit_form_spec(html.spec_bytes()) is None,
        },
{
    let csrf = match extract_meta_content(html, "csrf-token") {
        Some(v) => v,
        None => return None,
    };
    let gate_id = match extract_input_value(html, "fan_gate_id") {
        Some(v) => v,
        None => return None,
    };
    let wrndk = match extract_input_value(html, "wrndk") {
        Some(v) => v,
        None => return None,
    };
    let file_uid = match extract_input_value(html, "current_download_file_listner") {
        Some(v) => v,
        None => return None,
    };
    let steps = match extract_input_value(html, "nwSteps") {
        Some(v) => v,
        None => {
            let e = String::new();
            proof {
                assert(encode_utf8(e@) =~= Seq::<u8>::empty());
            }
            e
        },
    };
    let gvt = match extract_input_value(html, "gvt") {
        Some(v) => v,
        None => {
            proof {
                reveal_strlit("value=\"");
                lemma_ascii_str("value=\"");
            }
            match gvt_fallback(html) {
                Some(v) => v,
                None => return None,
            }
        },
    };
    Some(HypedditForm { csrf, gate_id, wrndk, file_uid, steps, gvt })
}

/// The quoted value within 100 bytes after `id="gvt"`.
fn gvt_fallback(html: &str) -> (r: Option<String>)
    requires
        attr_window_ok(html.spec_bytes(), "id=\"gvt\"".spec_bytes(), GVT_WINDOW as int),
        "value=\"".spec_bytes().len() > 0,
        "value=\"".spec_bytes().last() < 0x80,
    ensures
        match r {
            Some(s) => attr_after(
                html.spec_bytes(),
                "id=\"gvt\"".spec_bytes(),
                GVT_WINDOW as int,
                "value=\"".spec_bytes(),
            ) == Some(encode_utf8(s@)),
            None => attr_after(
                html.spec_bytes(),
                "id=\"gvt\"".spec_bytes(),
                GVT_WINDOW as int,
                "value=\"".spec_bytes(),
            ) is None,
        },
{
    crate::gate::attr_after_in(html, "id=\"gvt\"".as_bytes(), GVT_WINDOW, "value=\"")
}

/// The non-empty pieces of `h` between separators `sep` (what
/// `split(sep).filter(|s| !s.is_empty())` gives).
pub open spec fn nonempty_parts(h: Seq<u8>, sep: Seq<u8>) -> Seq<Seq<u8>>
    decreases h.len(),
{
    if sep.len() == 0 {
        if h.len() > 0 {
            seq![h]
        } else {
            Seq::empty()
        }
    } else {
        match first_match(h, sep) {
            None => if h.len() > 0 {
                seq![h]
            } else {
                Seq::empty()
            },
            Some(i) => {
                proof {
                    lemma_found(h, sep, i);
                }
                let rest = nonempty_parts(h.subrange(i + sep.len(), h.len() as int), sep);
                if i > 0 {
                    seq![h.subrange(0, i)] + rest
                } else {
                    rest
                }
            },
        }
    }
}

/// Form pairs by their bytes.
pub open spec fn pairs_bytes(v: Seq<(String, String)>) -> Seq<(Seq<u8>, Seq<u8>)> {
    v.map_values(|p: (String, String)| (encode_utf8(p.0@), encode_utf8(p.1@)))
}

/// One `skip_gate_steps[]` pair per step.
pub open spec fn skip_pairs(steps: Seq<Seq<u8>>) -> Seq<(Seq<u8>, Seq<u8>)> {
    steps.map_values(|st: Seq<u8>| ("skip_gate_steps[]".spec_bytes(), st))
}

/// The fields of the page-visit announcement.
pub open spec fn visit_pairs(f: (Seq<u8>, Seq<u8>, Seq<u8>, Seq<u8>, Seq<u8>, Seq<u8>)) -> Seq<
    (Seq<u8>, Seq<u8>),
> {
    seq![("vt".spec_bytes(), f.5), ("uid".spec_bytes(), f.3), ("_token".spec_bytes(), f.0)]
}

/// The fields of the download request, before the skipped steps.
pub open spec fn download_pairs(f: (Seq<u8>, Seq<u8>, Seq<u8>, Seq<u8>, Seq<u8>, Seq<u8>)) -> Seq<
    (Seq<u8>, Seq<u8>),
> {
    seq![
        ("file".spec_bytes(), f.3),
        ("download_visit".spec_bytes(), "true".spec_bytes()),
        ("profile_downloads".spec_bytes(), "true".spec_bytes()),
        ("page".spec_bytes(), "nonsingle".spec_bytes()),
        ("download_action".spec_bytes(), "DOWNLOAD".spec_bytes()),
        ("is_skippable".spec_bytes(), "1".spec_bytes()),
        ("steps".spec_bytes(), f.4),
        ("email".spec_bytes(), Seq::<u8>::empty()),
        ("is_mobile".spec_bytes(), Seq::<u8>::empty()),
        ("fan_gate_id".spec_bytes(), f.1),
        ("wrndk".spec_bytes(), f.2),
        ("gvf".spec_bytes(), "0".spec_bytes()),
        ("_token".spec_bytes(), f.0),
    ]
}

/// `scheme://host` of the page that the hypeddit request ended on, when it has a host.
pub open spec fn origin_spec(final_url: Seq<char>) -> Option<Seq<u8>> {
    match parsed_url(final_url) {
        Some(p) => match p.1 {
            Some(host) => Some(encode_utf8(p.0) + "://".spec_bytes() + encode_utf8(host)),
            None => None,
        },
        None => None,
    }
}

/// The two requests that pass a hypeddit gate.
pub struct HypedditRequests {
    /// Where the page visit is announced.
    pub visit_url: String,
    /// The fields of the page-visit announcement.
    pub visit_form: Vec<(String, String)>,
    /// Where the download is asked for.
    pub download_url: String,
    /// The fields of the download request.
    pub download_form: Vec<(String, String)>,
}

fn pair(k: &str, v: &str) -> (r: (String, String))
    ensures
        encode_utf8(r.0@) == k.spec_bytes(),
        encode_utf8(r.1@) == v.spec_bytes(),
{
    proof {
        lemma_string_bytes(k);
        lemma_string_bytes(v);
        encode_utf8_decode_utf8(k@);
        encode_utf8_decode_utf8(v@);
    }
    (k.to_owned(), v.to_owned())
}

/// The steps of a gate, as `skip_gate_steps[]` pairs appended to `out`.
fn push_skip_steps(out: &mut Vec<(String, String)>, steps: &str)
    ensures
        pairs_bytes(final(out)@) == pairs_bytes(old(out)@) + skip_pairs(
            nonempty_parts(steps.spec_bytes(), ",".spec_bytes()),
        ),
{
    let ghost hb = steps.spec_bytes();
    let ghost sep = ",".spec_bytes();
    let h = steps.as_bytes();
    let comma = ",";
    proof {
        lemma_str_valid(steps);
        reveal_strlit(",");
        lemma_ascii_str(comma);
        is_char_boundary_start_end_of_seq(hb);
        assert(hb.subrange(0, hb.len() as int) =~= hb);
        assert(pairs_bytes(old(out)@) + skip_pairs(nonempty_parts(hb, sep)) =~= pairs_bytes(out@)
            + skip_pairs(nonempty_parts(hb.subrange(0, hb.len() as int), sep)));
    }
    let mut pos: usize = 0;
    loop
        invariant
            pos <= hb.len(),
            hb == steps.spec_bytes(),
            sep == comma.spec_bytes(),
            sep == ",".spec_bytes(),
            h@ == hb,
            sep.len() == 1,
            sep[0] < 0x80,
            valid_utf8(hb),
            is_char_boundary(hb, pos as int),
            pairs_bytes(old(out)@) + skip_pairs(nonempty_parts(hb, sep)) == pairs_bytes(out@)
                + skip_pairs(nonempty_parts(hb.subrange(pos as int, hb.len() as int), sep)),
        decreases hb.len() - pos,
    {
        let ghost rs = hb.subrange(pos as int, hb.len() as int);
        let rest = &h[pos..h.len()];
        proof {
            assert(rs =~= rest@);
        }
        let (end, done) = match find_bytes(rest, comma.as_bytes()) {
            Some(i) => {
                proof {
                    lemma_found(rest@, sep, i as int);
                    assert(hb[pos + i] == sep[0]);
                    lemma_ascii_boundaries(hb, pos + i);
                }
                (pos + i, false)
            },
            None => {
                proof {
                    is_char_boundary_start_end_of_seq(hb);
                }
                (h.len(), true)
            },
        };
        let ghost before = out@;
        if end > pos {
            let part = piece(steps, pos, end);
            let p = pair("skip_gate_steps[]", part);
            out.push(p);
            proof {
                assert(part.spec_bytes() =~= rs.subrange(0, end - pos));
                assert(pairs_bytes(out@) =~= pairs_bytes(before) + seq![
                    ("skip_gate_steps[]".spec_bytes(), rs.subrange(0, end - pos)),
                ]);
            }
        }
        if done {
            proof {
                if end > pos {
                    assert(nonempty_parts(rs, sep) =~= seq![rs]);
                    assert(rs.subrange(0, end - pos) =~= rs);
                } else {
                    assert(rs.len() == 0);
                }
                assert(first_match(rs, sep) is None);
                if end > pos {
                    assert(skip_pairs(nonempty_parts(rs, sep)) =~= seq![
                        ("skip_gate_steps[]".spec_bytes(), rs),
                    ]);
                } else {
                    assert(skip_pairs(nonempty_parts(rs, sep)) =~= Seq::empty());
                    assert(out@ == before);
                }
                assert(pairs_bytes(out@) =~= pairs_bytes(before) + skip_pairs(
                    nonempty_parts(rs, sep),
                ));
                assert(pairs_bytes(old(out)@) + skip_pairs(nonempty_parts(hb, sep))
                    == pairs_bytes(out@));
            }
            return;
        }
        proof {
            let next = hb.subrange(end + 1, hb.len() as int);
            assert(rs.subrange(end - pos + 1, rs.len() as int) =~= next);
            let rest_parts = nonempty_parts(next, sep);
            if end > pos {
                assert(nonempty_parts(rs, sep) == seq![rs.subrange(0, end - pos)] + rest_parts);
                assert(skip_pairs(seq![rs.subrange(0, end - pos)] + rest_parts) =~= seq![
                    ("skip_gate_steps[]".spec_bytes(), rs.subrange(0, end - pos)),
                ] + skip_pairs(rest_parts));
                assert(pairs_bytes(before) + skip_pairs(nonempty_parts(rs, sep)) =~= pairs_bytes(
                    out@,
                ) + skip_pairs(rest_parts));
            } else {
                assert(nonempty_parts(rs, sep) == rest_parts);
            }
            lemma_ascii_boundaries(hb, end as int);
        }
        pos = end + 1;
    }
}

/// `scheme://host` of `final_url`.
fn origin_of(final_url: &str) -> (r: Option<String>)
    ensures
        match r {
            Some(o) => origin_spec(final_url@) == Some(encode_utf8(o@)),
            None => origin_spec(final_url@) is None,
        },
{
    let parts = match parse_url(final_url) {
        Some(p) => p,
        None => return None,
    };
    let host = match &parts.host {
        Some(h) => h,
        None => return None,
    };
    let mut origin = parts.scheme.clone();
    append_str(&mut origin, "://");
    append_str(&mut origin, host.as_str());
    Some(origin)
}

/// The fields of the page-visit announcement.
fn visit_form_of(form: &HypedditForm) -> (r: Vec<(String, String)>)
    ensures
        pairs_bytes(r@) == visit_pairs(form.bytes()),
{
    let mut visit_form: Vec<(String, String)> = Vec::new();
    visit_form.push(pair("vt", form.gvt.as_str()));
    visit_form.push(pair("uid", form.file_uid.as_str()));
    visit_form.push(pair("_token", form.csrf.as_str()));
    proof {
        assert(pairs_bytes(visit_form@) =~= visit_pairs(form.bytes()));
    }
    visit_form
}

/// The fields of the download request, the skipped steps last.
fn download_form_of(form: &HypedditForm) -> (r: Vec<(String, String)>)
    ensures
        pairs_bytes(r@) == download_pairs(form.bytes()) + skip_pairs(
            nonempty_parts(form.bytes().4, ",".spec_bytes()),
        ),
{
    let mut download_form: Vec<(String, String)> = Vec::new();
    download_form.push(pair("file", form.file_uid.as_str()));
    download_form.push(pair("download_visit", "true"));
    download_form.push(pair("profile_downloads", "true"));
    download_form.push(pair("page", "nonsingle"));
    download_form.push(pair("download_action", "DOWNLOAD"));
    download_form.push(pair("is_skippable", "1"));
    download_form.push(pair("steps", form.steps.as_str()));
    download_form.push(pair("email", ""));
    download_form.push(pair("is_mobile", ""));
    download_form.push(pair("fan_gate_id", form.gate_id.as_str()));
    download_form.push(pair("wrndk", form.wrndk.as_str()));
    download_form.push(pair("gvf", "0"));
    download_form.push(pair("_token", form.csrf.as_str()));
    proof {
        reveal_strlit("");
        assert("".spec_bytes() =~= Seq::<u8>::empty());
        assert(pairs_bytes(download_form@) =~= download_pairs(form.bytes()));
    }
    push_skip_steps(&mut download_form, form.steps.as_str());
    download_form
}

/// The requests that pass a hypeddit gate whose form was read from a page that
/// ended up at `final_url`: the page visit is announced at
/// `<origin>/gate/ge` and the file asked for at `<origin>/gate/download/ul`,
/// where the origin is `scheme://host` of `final_url`.  There are none when
/// `final_url` is no link with a host.
pub fn hypeddit_requests(form: &HypedditForm, final_url: &str) -> (r: Option<HypedditRequests>)
    ensures
        match r {
            Some(q) => origin_spec(final_url@) matches Some(origin) && {
                &&& encode_utf8(q.visit_url@) == origin + "/gate/ge".spec_bytes()
                &&& encode_utf8(q.download_url@) == origin + "/gate/download/ul".spec_bytes()
                &&& pairs_bytes(q.visit_form@) == visit_pairs(form.bytes())
                &&& pairs_bytes(q.download_form@) == download_pairs(form.bytes()) + skip_pairs(
                    nonempty_parts(form.bytes().4, ",".spec_bytes()),
                )
            },
            None => origin_spec(final_url@) is None,
        },
{
    let origin = match origin_of(final_url) {
        Some(o) => o,
        None => return None,
    };
    let mut visit_url = origin.clone();
    append_str(&mut visit_url, "/gate/ge");
    let mut download_url = origin;
    append_str(&mut download_url, "/gate/download/ul");
    let visit_form = visit_form_of(form);
    let download_form = download_form_of(form);
    Some(HypedditRequests { visit_url, visit_form, download_url, download_form })
}

/// The link that hypeddit's answer hands out: the `URL` field when
/// `download_status` is true and the link is not empty.
pub fn hypeddit_next(download_status: Option<bool>, url: Option<String>) -> (r: Option<String>)
    ensures
        match r {
            Some(u) => download_status == Some(true) && (url matches Some(v) && v@ == u@
                && u@.len() > 0),
            None => download_status != Some(true) || match url {
                Some(v) => v@.len() == 0,
                None => true,
            },
        },
{
    let ok = match download_status {
        Some(b) => b,
        None => false,
    };
    if ok {
        match url {
            Some(u) => if u.as_str().is_empty() {
                None
            } else {
                Some(u)
            },
            None => None,
        }
    } else {
        None
    }
}

} // verus!
