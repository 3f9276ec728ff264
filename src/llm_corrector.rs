//! Recovery of corrections and candidate words from free-form model replies.
use vstd::prelude::*;

use crate::text::{
    char_is_alpha, char_is_space, chars_of, find, find_from, is_alpha, is_space, same_text,
    string_of, trim_text, trimmed,
};

verus! {

/// The outcome of a request to correct one word.
#[derive(Debug, Clone)]
pub struct CorrectionResult {
    pub success: bool,
    pub original: String,
    pub corrected: String,
    pub confidence: String,
    pub reason: String,
}

/// A word suggested in place of one that was not recognised.
#[derive(Debug, Clone)]
pub struct Candidate {
    pub word: String,
    pub reason: String,
    pub verified: bool,
}

/// The outcome of a request for candidate words.
#[derive(Debug, Clone)]
pub struct CandidatesResult {
    pub success: bool,
    pub original: String,
    pub candidates: Vec<Candidate>,
    pub reason: String,
}

/// A correction result as plain values.
pub struct CorrectionView {
    pub success: bool,
    pub original: Seq<char>,
    pub corrected: Seq<char>,
    pub confidence: Seq<char>,
    pub reason: Seq<char>,
}

/// A candidate as plain values.
pub struct CandidateView {
    pub word: Seq<char>,
    pub reason: Seq<char>,
    pub verified: bool,
}

/// A candidates result as plain values.
pub struct CandidatesView {
    pub success: bool,
    pub original: Seq<char>,
    pub candidates: Seq<CandidateView>,
    pub reason: Seq<char>,
}

impl View for CorrectionResult {
    type V = CorrectionView;

    open spec fn view(&self) -> CorrectionView {
        CorrectionView {
            success: self.success,
            original: self.original@,
            corrected: self.corrected@,
            confidence: self.confidence@,
            reason: self.reason@,
        }
    }
}

impl View for Candidate {
    type V = CandidateView;

    open spec fn view(&self) -> CandidateView {
        CandidateView { word: self.word@, reason: self.reason@, verified: self.verified }
    }
}

impl View for CandidatesResult {
    type V = CandidatesView;

    open spec fn view(&self) -> CandidatesView {
        CandidatesView {
            success: self.success,
            original: self.original@,
            candidates: self.candidates@.map_values(|c: Candidate| c@),
            reason: self.reason@,
        }
    }
}

/// The trimmed text from `start` up to the next code fence, or to the end.
pub open spec fn block_from(t: Seq<char>, start: int) -> Seq<char> {
    match find_from(t, "```"@, start) {
        Some(j) => trimmed(t.subrange(start, j)),
        None => trimmed(t.subrange(start, t.len() as int)),
    }
}

/// The part of a trimmed reply that should hold the JSON payload: the block
/// after the first `json`-tagged fence, else the block after the first fence,
/// else the whole reply.
pub open spec fn json_part(t: Seq<char>) -> Seq<char> {
    match find_from(t, "```json"@, 0) {
        Some(i) => block_from(t, i + "```json"@.len()),
        None => match find_from(t, "```"@, 0) {
            Some(i) => block_from(t, i + "```"@.len()),
            None => t,
        },
    }
}

/// The characters of `t` before its first white space.
pub open spec fn first_token(t: Seq<char>) -> Seq<char>
    decreases t.len(),
{
    if t.len() == 0 || is_space(t[0]) {
        seq![]
    } else {
        seq![t[0]] + first_token(t.drop_first())
    }
}

/// `s` without its leading non-alphabetic characters.
pub open spec fn strip_start(s: Seq<char>) -> Seq<char>
    decreases s.len(),
{
    if s.len() > 0 && !is_alpha(s[0]) {
        strip_start(s.drop_first())
    } else {
        s
    }
}

/// `s` without its trailing non-alphabetic characters.
pub open spec fn strip_end(s: Seq<char>) -> Seq<char>
    decreases s.len(),
{
    if s.len() > 0 && !is_alpha(s.last()) {
        strip_end(s.drop_last())
    } else {
        s
    }
}

/// The word guessed from a trimmed reply that holds no usable JSON: its first
/// token, without leading and trailing non-alphabetic characters.
pub open spec fn guessed_word(t: Seq<char>) -> Seq<char> {
    strip_end(strip_start(first_token(t)))
}

/// The confidence levels that a reply may give.
pub open spec fn is_known_confidence(c: Seq<char>) -> bool {
    c == "high"@ || c == "medium"@ || c == "low"@
}

/// The correction made from a trimmed reply `t` without a usable payload: the
/// word guessed from it with low confidence, else a failure that keeps the
/// original word.
pub open spec fn fallback_outcome(original: Seq<char>, t: Seq<char>) -> CorrectionView {
    if guessed_word(t).len() > 0 {
        CorrectionView {
            success: true,
            original,
            corrected: guessed_word(t),
            confidence: "low"@,
            reason: "从响应中提取的单词"@,
        }
    } else {
        CorrectionView {
            success: false,
            original,
            corrected: original,
            confidence: "none"@,
            reason: "无法解析LLM响应"@,
        }
    }
}

/// The correction made from a trimmed reply `t` and the fields decoded from its
/// JSON payload, if any: the decoded fields when their confidence is a known
/// level, else the fallback.
pub open spec fn correction_outcome(
    original: Seq<char>,
    t: Seq<char>,
    decoded: Option<(Seq<char>, Seq<char>, Seq<char>)>,
) -> CorrectionView {
    match decoded {
        Some(f) => if is_known_confidence(f.1) {
            CorrectionView {
                success: true,
                original,
                corrected: f.0,
                confidence: f.1,
                reason: f.2,
            }
        } else {
            fallback_outcome(original, t)
        },
        None => fallback_outcome(original, t),
    }
}

/// The fields `corrected`, `confidence` and `reason` that serde_json decodes from
/// a JSON text, if it is an object with these string members.
pub uninterp spec fn correction_fields_of(json: Seq<char>) -> Option<(Seq<char>, Seq<char>, Seq<char>)>;

/// The `word` and `reason` of each entry of the `candidates` array that serde_json
/// decodes from a JSON text, or the message of the decoding error.
pub uninterp spec fn candidate_fields_of(json: Seq<char>) -> Result<Seq<(Seq<char>, Seq<char>)>, Seq<char>>;

/// The correction made from a reply.
pub open spec fn correction_of(original: Seq<char>, content: Seq<char>) -> CorrectionView {
    correction_outcome(
        original,
        trimmed(content),
        correction_fields_of(json_part(trimmed(content))),
    )
}

/// The candidate made from a decoded `word` and `reason`.
pub open spec fn candidate_entry(p: (Seq<char>, Seq<char>)) -> CandidateView {
    CandidateView { word: p.0, reason: p.1, verified: false }
}

/// The candidates result made from the outcome of decoding a reply.
pub open spec fn candidates_outcome(
    original: Seq<char>,
    decoded: Result<Seq<(Seq<char>, Seq<char>)>, Seq<char>>,
) -> CandidatesView {
    match decoded {
        Ok(entries) => CandidatesView {
            success: true,
            original,
            candidates: entries.map_values(|p: (Seq<char>, Seq<char>)| candidate_entry(p)),
            reason: "success"@,
        },
        Err(e) => CandidatesView {
            success: false,
            original,
            candidates: seq![],
            reason: "解析响应失败: "@ + e,
        },
    }
}

/// The candidates result made from a reply.
pub open spec fn candidates_of(original: Seq<char>, content: Seq<char>) -> CandidatesView {
    candidates_outcome(original, candidate_fields_of(json_part(trimmed(content))))
}

/// Relies on `serde_json::from_str`, `Value::get` and `Value::as_str`: the three
/// string members of a JSON object, or `None` when the text is no such object.
#[verifier::external_body]
fn decode_correction(json: &str) -> (r: Option<(String, String, String)>)
    ensures
        r.deep_view() == correction_fields_of(json@),
        json@.len() == 0 ==> r is None,
{
    let v: serde_json::Value = serde_json::from_str(json).ok()?;
    Some((
        v.get("corrected")?.as_str()?.to_string(),
        v.get("confidence")?.as_str()?.to_string(),
        v.get("reason")?.as_str()?.to_string(),
    ))
}

/// Relies on `serde_json::from_str`, `Value::get` and `serde_json::from_value`:
/// the `word` and `reason` of each entry of the `candidates` array, or the
/// message of serde_json's error. Empty text is no JSON value.
#[verifier::external_body]
fn decode_candidates(json: &str) -> (r: Result<Vec<(String, String)>, String>)
    ensures
        match r {
            Ok(v) => candidate_fields_of(json@) == Ok::<_, Seq<char>>(v.deep_view()),
            Err(e) => candidate_fields_of(json@) == Err::<Seq<(Seq<char>, Seq<char>)>, _>(e@),
        },
        json@.len() == 0 ==> r is Err,
{
    let v: serde_json::Value = serde_json::from_str(json).map_err(|e| e.to_string())?;
    let list: Vec<serde_json::Value> = serde_json::from_value(v.get("candidates").cloned().unwrap_or_default())
        .map_err(|e| e.to_string())?;
    list.iter()
        .map(|c| {
            let word = serde_json::from_value(c.get("word").cloned().unwrap_or_default())?;
            Ok((word, serde_json::from_value(c.get("reason").cloned().unwrap_or_default())?))
        })
        .collect::<Result<Vec<(String, String)>, serde_json::Error>>()
        .map_err(|e| e.to_string())
}

fn sub_chars(v: &Vec<char>, from: usize, to: usize) -> (r: Vec<char>)
    requires
        from <= to <= v@.len(),
    ensures
        r@ == v@.subrange(from as int, to as int),
{
    let mut r: Vec<char> = Vec::new();
    let mut i: usize = from;
    while i < to
        invariant
            from <= i <= to <= v@.len(),
            r@ == v@.subrange(from as int, i as int),
        decreases to - i,
    {
        r.push(v[i]);
        assert(r@ =~= v@.subrange(from as int, i + 1));
        i = i + 1;
    }
    r
}

fn block_text(t: &Vec<char>, start: usize) -> (r: String)
    requires
        start <= t@.len(),
    ensures
        r@ == block_from(t@, start as int),
{
    let fence = chars_of("```");
    let end = match find(t, &fence, start) {
        Some(j) => j,
        None => t.len(),
    };
    proof {
        if let Some(j) = find_from(t@, fence@, start as int) {
            lemma_find_bounds(t@, fence@, start as int);
        }
    }
    let block = sub_chars(t, start, end);
    trim_text(string_of(block.as_slice()).as_str())
}

proof fn lemma_find_bounds(s: Seq<char>, p: Seq<char>, i: int)
    ensures
        find_from(s, p, i) matches Some(j) ==> i <= j && j + p.len() <= s.len(),
    decreases s.len() + 1 - i,
{
    if i >= 0 && i + p.len() <= s.len() && !(s.subrange(i, i + p.len()) == p) {
        lemma_find_bounds(s, p, i + 1);
    }
}

/// The JSON payload of a reply: the block after the first `json`-tagged fence,
/// else the block after the first fence, else the whole trimmed reply.
pub fn json_payload(content: &str) -> (r: String)
    ensures
        r@ == json_part(trimmed(content@)),
{
    let trimmed_text = trim_text(content);
    let t = chars_of(trimmed_text.as_str());
    let tagged = chars_of("```json");
    let fence = chars_of("```");
    match find(&t, &tagged, 0) {
        Some(i) => {
            proof { lemma_find_bounds(t@, tagged@, 0); }
            assert(i + tagged.len() <= t.len());
            block_text(&t, i + tagged.len())
        },
        None => match find(&t, &fence, 0) {
            Some(i) => {
                proof { lemma_find_bounds(t@, fence@, 0); }
                assert(i + fence.len() <= t.len());
                block_text(&t, i + fence.len())
            },
            None => trimmed_text,
        },
    }
}

fn first_token_chars(t: &Vec<char>) -> (r: Vec<char>)
    ensures
        r@ == first_token(t@),
{
    let mut k: usize = 0;
    assert(t@.subrange(0, 0) + t@.subrange(0, t@.len() as int) =~= t@);
    while k < t.len() && !char_is_space(t[k])
        invariant
            k <= t@.len(),
            first_token(t@) == t@.subrange(0, k as int) + first_token(t@.subrange(k as int, t@.len() as int)),
        decreases t@.len() - k,
    {
        let ghost rest = t@.subrange(k as int, t@.len() as int);
        assert(rest.drop_first() =~= t@.subrange(k + 1, t@.len() as int));
        assert(t@.subrange(0, k + 1) =~= t@.subrange(0, k as int) + seq![t@[k as int]]);
        k = k + 1;
    }
    assert(t@.subrange(0, k as int) + first_token(t@.subrange(k as int, t@.len() as int))
        =~= t@.subrange(0, k as int));
    sub_chars(t, 0, k)
}

fn strip_non_alpha(v: &Vec<char>) -> (r: Vec<char>)
    ensures
        r@ == strip_end(strip_start(v@)),
{
    let n = v.len();
    let mut i: usize = 0;
    assert(v@.subrange(0, n as int) =~= v@);
    while i < n && !char_is_alpha(v[i])
        invariant
            n == v@.len(),
            i <= n,
            strip_start(v@) == strip_start(v@.subrange(i as int, n as int)),
        decreases n - i,
    {
        assert(v@.subrange(i as int, n as int).drop_first() =~= v@.subrange(i + 1, n as int));
        i = i + 1;
    }
    assert(strip_start(v@.subrange(i as int, n as int)) == v@.subrange(i as int, n as int));
    let mut j: usize = n;
    while j > i && !char_is_alpha(v[j - 1])
        invariant
            n == v@.len(),
            i <= j <= n,
            strip_end(strip_start(v@)) == strip_end(v@.subrange(i as int, j as int)),
        decreases j - i,
    {
        assert(v@.subrange(i as int, j as int).drop_last() =~= v@.subrange(i as int, j - 1));
        j = j - 1;
    }
    sub_chars(v, i, j)
}

/// The word guessed from a reply that holds no usable JSON.
fn guess_word(trimmed_reply: &Vec<char>) -> (r: Vec<char>)
    ensures
        r@ == guessed_word(trimmed_reply@),
{
    let token = first_token_chars(trimmed_reply);
    strip_non_alpha(&token)
}

impl CorrectionResult {
    /// The result given when correction is not available.
    pub fn disabled(word: &str) -> (r: Self)
        ensures
            r@ == (CorrectionView {
                success: false,
                original: word@,
                corrected: word@,
                confidence: "none"@,
                reason: "feature disabled"@,
            }),
    {
        CorrectionResult {
            success: false,
            original: String::from_str(word),
            corrected: String::from_str(word),
            confidence: String::from_str("none"),
            reason: String::from_str("feature disabled"),
        }
    }
}

impl CandidatesResult {
    /// The result given when candidate generation is not available.
    pub fn disabled(word: &str) -> (r: Self)
        ensures
            r@ == (CandidatesView {
                success: false,
                original: word@,
                candidates: seq![],
                reason: "feature disabled"@,
            }),
    {
        let r = CandidatesResult {
            success: false,
            original: String::from_str(word),
            candidates: Vec::new(),
            reason: String::from_str("feature disabled"),
        };
        assert(r@.candidates =~= seq![]);
        r
    }
}

fn fallback_correction(original: &str, content: &str) -> (r: CorrectionResult)
    ensures
        r@ == fallback_outcome(original@, trimmed(content@)),
{
    let t = chars_of(trim_text(content).as_str());
    let guess = guess_word(&t);
    if guess.len() > 0 {
        CorrectionResult {
            success: true,
            original: String::from_str(original),
            corrected: string_of(guess.as_slice()),
            confidence: String::from_str("low"),
            reason: String::from_str("从响应中提取的单词"),
        }
    } else {
        CorrectionResult {
            success: false,
            original: String::from_str(original),
            corrected: String::from_str(original),
            confidence: String::from_str("none"),
            reason: String::from_str("无法解析LLM响应"),
        }
    }
}

/// The correction made from a reply, given the fields decoded from its JSON
/// payload (`None` when it did not decode): the decoded fields as they are when
/// the confidence is `high`, `medium` or `low`, else the word guessed from the
/// reply with low confidence, else a failure that keeps the original word.
pub fn correction_from_decoded(
    original: &str,
    content: &str,
    decoded: Option<(String, String, String)>,
) -> (r: CorrectionResult)
    ensures
        r@ == correction_outcome(original@, trimmed(content@), decoded.deep_view()),
{
    match decoded {
        Some(fields) => {
            let known = same_text(fields.1.as_str(), "high") || same_text(fields.1.as_str(), "medium")
                || same_text(fields.1.as_str(), "low");
            if known {
                CorrectionResult {
                    success: true,
                    original: String::from_str(original),
                    corrected: fields.0,
                    confidence: fields.1,
                    reason: fields.2,
                }
            } else {
                fallback_correction(original, content)
            }
        },
        None => fallback_correction(original, content),
    }
}

/// Parses a reply to a correction request for `original`.
pub fn parse_correction_response(original: &str, content: &str) -> (r: CorrectionResult)
    ensures
        r@ == correction_of(original@, content@),
        trimmed(content@).len() == 0 ==> !r.success && r.confidence@ == "none"@ && r.corrected@
            == original@,
{
    let payload = json_payload(content);
    proof {
        let t = trimmed(content@);
        if t.len() == 0 {
            reveal_strlit("```json");
            reveal_strlit("```");
            assert(json_part(t) == t);
            assert(first_token(t) =~= seq![]);
            assert(strip_start(first_token(t)) =~= seq![]);
        }
    }
    let decoded = decode_correction(payload.as_str());
    correction_from_decoded(original, content, decoded)
}

/// The candidates result made from the outcome of decoding a reply: the decoded
/// entries, unverified, or a failure whose reason carries the decoding error.
pub fn candidates_from_decoded(
    original: &str,
    decoded: Result<Vec<(String, String)>, String>,
) -> (r: CandidatesResult)
    ensures
        r@ == candidates_outcome(
            original@,
            match decoded {
                Ok(v) => Ok(v.deep_view()),
                Err(e) => Err(e@),
            },
        ),
{
    match decoded {
        Ok(entries) => {
            let mut candidates: Vec<Candidate> = Vec::new();
            let ghost dv = entries.deep_view();
            let mut i: usize = 0;
            while i < entries.len()
                invariant
                    dv == entries.deep_view(),
                    i <= entries@.len(),
                    candidates@.len() == i,
                    forall|j: int| 0 <= j < i ==> (#[trigger] candidates@[j])@ == candidate_entry(dv[j]),
                decreases entries@.len() - i,
            {
                let entry = &entries[i];
                assert(dv[i as int] == (entry.0@, entry.1@));
                candidates.push(
                    Candidate { word: entry.0.clone(), reason: entry.1.clone(), verified: false },
                );
                i = i + 1;
            }
            assert(candidates@.map_values(|c: Candidate| c@) =~= dv.map_values(
                |p: (Seq<char>, Seq<char>)| candidate_entry(p),
            ));
            CandidatesResult {
                success: true,
                original: String::from_str(original),
                candidates,
                reason: String::from_str("success"),
            }
        },
        Err(e) => {
            let r = CandidatesResult {
                success: false,
                original: String::from_str(original),
                candidates: Vec::new(),
                reason: String::from_str("解析响应失败: ").concat(e.as_str()),
            };
            assert(r@.candidates =~= seq![]);
            r
        },
    }
}

/// Parses a reply to a candidates request for `original`.
pub fn parse_candidates_response(original: &str, content: &str) -> (r: CandidatesResult)
    ensures
        r@ == candidates_of(original@, content@),
        trimmed(content@).len() == 0 ==> !r.success && r.candidates@.len() == 0,
{
    let payload = json_payload(content);
    proof {
        let t = trimmed(content@);
        if t.len() == 0 {
            reveal_strlit("```json");
            reveal_strlit("```");
            assert(json_part(t) == t);
        }
    }
    let decoded = decode_candidates(payload.as_str());
    let r = candidates_from_decoded(original, decoded);
    assert(r@.candidates.len() == r.candidates@.len());
    r
}

/// A failed correction keeps the original word as the corrected one; a
/// correction with confidence "none" is a failure; a successful one has a known
/// confidence level; and a correction without a usable payload is successful
/// only with low confidence.
pub proof fn lemma_failure_keeps_original(original: Seq<char>, content: Seq<char>)
    ensures
        correction_of(original, content).confidence == "none"@ ==> !correction_of(
            original,
            content,
        ).success,
        correction_of(original, content).success ==> is_known_confidence(
            correction_of(original, content).confidence,
        ),
        !correction_of(original, content).success ==> correction_of(original, content).corrected
            == original,
        correction_fields_of(json_part(trimmed(content))) is None ==> (correction_of(
            original,
            content,
        ).success <==> correction_of(original, content).confidence == "low"@),
{
    reveal_strlit("low");
    reveal_strlit("none");
    reveal_strlit("high");
    reveal_strlit("medium");
    assert("none"@[0] != "low"@[0]);
    assert("none"@[0] != "high"@[0]);
    assert("none"@[0] != "medium"@[0]);
}

/// A reply whose payload does not decode gives a failed candidates result with
/// no candidate and a reason that is not empty.
pub proof fn lemma_candidates_decode_failure(original: Seq<char>, content: Seq<char>)
    requires
        candidate_fields_of(json_part(trimmed(content))) is Err,
    ensures
        !candidates_of(original, content).success,
        candidates_of(original, content).candidates.len() == 0,
        candidates_of(original, content).reason.len() > 0,
{
    reveal_strlit("解析响应失败: ");
}

} // verus!
