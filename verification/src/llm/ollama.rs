//! The Ollama side of the model client: cleaning up the model's answer,
//! decoding the streamed reply, and turning HTTP outcomes into errors.
use vstd::prelude::*;
use vstd::utf8::{decode_utf8, valid_utf8};
use crate::text::{
    CharClass, chars_of, contains_seq, copy_str, find_char, first_index_of, in_class,
    lemma_first_index_at,
    lemma_trim_by_untouched, lemma_trim_end_shape, lemma_trim_idempotent, lemma_trim_start_shape,
    occurs_at, skip_back, skip_front, str_contains, string_from_range, trim, trim_bounds, trim_by,
    trim_end_by, trim_start_by, trimmed,
};

verus! {

/// Backtick, the character of Markdown code spans and fences.
pub open spec fn backtick() -> CharClass {
    CharClass::Exactly('`')
}

/// The text starts with a Markdown code fence.
pub open spec fn opens_fence(t: Seq<char>) -> bool {
    t.len() >= 3 && t[0] == '`' && t[1] == '`' && t[2] == '`'
}

/// Everything after the first newline, or all of `w` if it has none.
pub open spec fn after_first_line(w: Seq<char>) -> Seq<char> {
    match first_index_of(w, '\n') {
        Some(i) => w.subrange(i + 1, w.len() as int),
        None => w,
    }
}

/// The command that a model answer stands for: surrounding whitespace is
/// removed; a fenced code block is reduced to its body (the fence line,
/// language tag included, and the closing fence are dropped); then any
/// backticks at either end are removed and the result is trimmed again.
pub open spec fn cleaned(s: Seq<char>) -> Seq<char> {
    let t = trim(s);
    let u = if opens_fence(t) {
        trim(trim_end_by(after_first_line(trim_start_by(t, backtick())), backtick()))
    } else {
        t
    };
    trim(trim_by(u, backtick()))
}

/// A cleaned command has no surrounding whitespace.
pub proof fn law_cleaned_is_trimmed(s: Seq<char>)
    ensures
        trim(cleaned(s)) == cleaned(s),
{
    let t = trim(s);
    let u = if opens_fence(t) {
        trim(trim_end_by(after_first_line(trim_start_by(t, backtick())), backtick()))
    } else {
        t
    };
    lemma_trim_idempotent(trim_by(u, backtick()), CharClass::Space);
}

/// A trimmed text keeps whitespace off both of its ends.
pub proof fn lemma_trimmed_ends(c: Seq<char>)
    requires
        trim(c) == c,
    ensures
        c.len() == 0 || (!in_class(CharClass::Space, c[0]) && !in_class(
            CharClass::Space,
            c.last(),
        )),
{
    let k = lemma_trim_start_shape(c, CharClass::Space);
    let a = c.subrange(k, c.len() as int);
    let m = lemma_trim_end_shape(a, CharClass::Space);
    assert(a.subrange(0, m).len() == c.len());
    if c.len() > 0 {
        assert(k == 0);
        assert(a =~= c);
        assert(m == c.len());
    }
}

/// A trimmed text followed by one newline trims back to itself.
pub proof fn lemma_trim_newline_after(c: Seq<char>)
    requires
        trim(c) == c,
    ensures
        trim(c + seq!['\n']) == c,
{
    lemma_trimmed_ends(c);
    let t = c + seq!['\n'];
    let k = lemma_trim_start_shape(t, CharClass::Space);
    if c.len() == 0 {
        assert(k == 1);
        let e = t.subrange(1, 1);
        let m = lemma_trim_end_shape(e, CharClass::Space);
        assert(e.subrange(0, m) =~= c);
    } else {
        assert(t[0] == c[0]);
        assert(k == 0);
        assert(t.subrange(0, t.len() as int) =~= t);
        let m = lemma_trim_end_shape(t, CharClass::Space);
        assert(t[c.len() - 1] == c.last());
        assert(m == c.len());
        assert(t.subrange(0, m) =~= c);
    }
}

/// The opening or closing mark of a fenced code block.
pub open spec fn fence() -> Seq<char> {
    seq!['`', '`', '`']
}

/// A command between single backticks cleans back to itself.
proof fn lemma_clean_inline(c: Seq<char>)
    requires
        forall|i: int| 0 <= i < c.len() ==> c[i] != '`',
        trim(c) == c,
    ensures
        cleaned(seq!['`'] + c + seq!['`']) == c,
{
    lemma_trim_by_untouched(c, backtick());
    let s = seq!['`'] + c + seq!['`'];
    lemma_trim_by_untouched(s, CharClass::Space);
    if c.len() > 0 {
        assert(s[1] == c[0]);
    }
    assert(!opens_fence(s));
    let k = lemma_trim_start_shape(s, backtick());
    if c.len() > 0 {
        assert(k == 1);
    } else {
        assert(k == 2);
    }
    let a = s.subrange(k, s.len() as int);
    let m = lemma_trim_end_shape(a, backtick());
    if c.len() > 0 {
        assert(a =~= c + seq!['`']);
        assert(a[c.len() - 1] == c.last());
        assert(m == c.len());
    }
    assert(a.subrange(0, m) =~= c);
}

/// After the opening fence line comes the command, then the closing fence.
proof fn lemma_fence_after(c: Seq<char>, lang: Seq<char>)
    requires
        forall|i: int| 0 <= i < lang.len() ==> lang[i] != '\n',
    ensures
        after_first_line(trim_start_by(fence() + lang + seq!['\n'] + c + seq!['\n'] + fence(), backtick()))
            == c + seq!['\n'] + fence(),
{
    let head = fence() + lang;
    let tail = c + seq!['\n'] + fence();
    let f = fence() + lang + seq!['\n'] + c + seq!['\n'] + fence();
    assert(f =~= head + (seq!['\n'] + tail));
    let p: int = head.len() as int;
    assert(f[p] == '\n');
    let k = lemma_trim_start_shape(f, backtick());
    assert(k <= p) by {
        if k > p {
            assert(in_class(backtick(), f[p]));
        }
    }
    let w = f.subrange(k, f.len() as int);
    assert forall|j: int| 0 <= j < p - k implies w[j] != '\n' by {
        assert(w[j] == f[k + j]);
        assert(f[k + j] == head[k + j]);
        if k + j >= 3 {
            assert(head[k + j] == lang[k + j - 3]);
        }
    }
    assert(w[p - k] == '\n');
    lemma_first_index_at(w, '\n', p - k);
    assert(w.subrange(p - k + 1, w.len() as int) =~= tail);
}

/// The command before the closing fence, trimmed, is the command.
proof fn lemma_fence_tail(c: Seq<char>)
    requires
        forall|i: int| 0 <= i < c.len() ==> c[i] != '`',
        trim(c) == c,
    ensures
        trim(trim_end_by(c + seq!['\n'] + fence(), backtick())) == c,
{
    let after = c + seq!['\n'] + fence();
    let m = lemma_trim_end_shape(after, backtick());
    assert(after[c.len() as int] == '\n');
    assert(after[after.len() - 1] == '`' && after[after.len() - 2] == '`' && after[after.len()
        - 3] == '`');
    assert(m == c.len() + 1);
    assert(after.subrange(0, m) =~= c + seq!['\n']);
    lemma_trim_newline_after(c);
}

/// A command in a fenced code block cleans back to itself.
proof fn lemma_clean_fenced(c: Seq<char>, lang: Seq<char>)
    requires
        forall|i: int| 0 <= i < c.len() ==> c[i] != '`',
        trim(c) == c,
        forall|i: int| 0 <= i < lang.len() ==> lang[i] != '\n',
    ensures
        cleaned(fence() + lang + seq!['\n'] + c + seq!['\n'] + fence()) == c,
{
    lemma_trim_by_untouched(c, backtick());
    let f = fence() + lang + seq!['\n'] + c + seq!['\n'] + fence();
    assert(f[0] == '`' && f[1] == '`' && f[2] == '`');
    assert(f.last() == '`');
    lemma_trim_by_untouched(f, CharClass::Space);
    assert(opens_fence(f));
    lemma_fence_after(c, lang);
    lemma_fence_tail(c);
}

/// A command wrapped in single backticks, or in a fenced code block with or
/// without a language tag, is given back unchanged by cleaning, as long as
/// it holds no backtick and has no surrounding whitespace.
pub proof fn law_clean_undoes_wrapping(c: Seq<char>, lang: Seq<char>)
    requires
        forall|i: int| 0 <= i < c.len() ==> c[i] != '`',
        trim(c) == c,
        forall|i: int| 0 <= i < lang.len() ==> lang[i] != '\n',
    ensures
        cleaned(seq!['`'] + c + seq!['`']) == c,
        cleaned(fence() + lang + seq!['\n'] + c + seq!['\n'] + fence()) == c,
{
    lemma_clean_inline(c);
    lemma_clean_fenced(c, lang);
}

/// An answer that is not wrapped in backticks is only trimmed: when the
/// trimmed answer neither starts nor ends with a backtick, cleaning gives
/// it back whole.
pub proof fn law_unwrapped_answer_is_trimmed(s: Seq<char>)
    requires
        trim(s).len() == 0 || (trim(s)[0] != '`' && trim(s).last() != '`'),
    ensures
        cleaned(s) == trim(s),
{
    let t = trim(s);
    assert(!opens_fence(t));
    lemma_trim_by_untouched(t, backtick());
    lemma_trim_idempotent(s, CharClass::Space);
}

/// The body of a fenced block standing at `v[a..b]`.
fn fence_body(v: &Vec<char>, a: usize, b: usize) -> (r: (usize, usize))
    requires
        a <= b <= v.len(),
    ensures
        a <= r.0 <= r.1 <= b,
        v@.subrange(r.0 as int, r.1 as int) == trim(
            trim_end_by(
                after_first_line(trim_start_by(v@.subrange(a as int, b as int), backtick())),
                backtick(),
            ),
        ),
{
    let a2 = skip_front(v, a, b, CharClass::Exactly('`'));
    let ghost w = v@.subrange(a2 as int, b as int);
    let a3 = match find_char(v, a2, b, '\n') {
        Some(p) => {
            assert(w.subrange(p - a2 + 1, b - a2) =~= v@.subrange(p + 1, b as int));
            p + 1
        },
        None => a2,
    };
    assert(v@.subrange(a3 as int, b as int) == after_first_line(w));
    let b3 = skip_back(v, a3, b, CharClass::Exactly('`'));
    trim_bounds(v, a3, b3, CharClass::Space)
}

/// Reduces a model answer to a bare shell command (see `cleaned`).
pub fn clean_command(s: &str) -> (r: String)
    ensures
        r@ == cleaned(s@),
{
    let v = chars_of(s);
    let n = v.len();
    assert(v@.subrange(0, n as int) =~= v@);
    let (a, b) = trim_bounds(&v, 0, n, CharClass::Space);
    let ghost t = v@.subrange(a as int, b as int);
    let fenced = b - a >= 3 && v[a] == '`' && v[a + 1] == '`' && v[a + 2] == '`';
    assert(fenced == opens_fence(t));
    let (c, d) = if fenced {
        fence_body(&v, a, b)
    } else {
        (a, b)
    };
    let (e, f) = trim_bounds(&v, c, d, CharClass::Exactly('`'));
    let (g, h) = trim_bounds(&v, e, f, CharClass::Space);
    string_from_range(&v, g, h)
}


// ---------------------------------------------------------------------------
// Errors
// ---------------------------------------------------------------------------

/// What can go wrong while asking the model.
pub enum LlmError {
    /// The HTTP client could not be set up.
    ClientBuild,
    /// The server could not be reached, or did not answer in time.
    NotRunning,
    /// Sending the request failed for another reason (its description).
    ConnectFailed(String),
    /// The server does not have the named model.
    ModelNotFound(String),
    /// An error status (its text) without further detail.
    ApiStatus(String),
    /// An error status (its text) and the body of the reply.
    ApiStatusBody(String, String),
    /// The streamed reply broke off.
    StreamRead,
    /// The server reported an error in the stream (its text).
    Ollama(String),
}

/// The text shown for each error.
pub open spec fn error_text(e: LlmError) -> Seq<char> {
    match e {
        LlmError::ClientBuild => "Failed to build HTTP client"@,
        LlmError::NotRunning => "Ollama is not running. Start with: ollama serve"@,
        LlmError::ConnectFailed(d) => "Failed to connect to Ollama: "@ + d@,
        LlmError::ModelNotFound(m) => "Model '"@ + m@ + "' not found. Pull with: ollama pull "@ + m@,
        LlmError::ApiStatus(st) => "Ollama API error ("@ + st@ + ")"@,
        LlmError::ApiStatusBody(st, body) => "Ollama API error ("@ + st@ + "): "@ + body@,
        LlmError::StreamRead => "Failed to read response stream"@,
        LlmError::Ollama(e) => "Ollama error: "@ + e@,
    }
}

impl LlmError {
    /// The text shown to the user for this error.
    pub fn message(&self) -> (r: String)
        ensures
            r@ == error_text(*self),
    {
        let mut s = String::new();
        match self {
            LlmError::ClientBuild => s.append("Failed to build HTTP client"),
            LlmError::NotRunning => s.append("Ollama is not running. Start with: ollama serve"),
            LlmError::ConnectFailed(d) => {
                s.append("Failed to connect to Ollama: ");
                s.append(d.as_str());
            },
            LlmError::ModelNotFound(m) => {
                s.append("Model '");
                s.append(m.as_str());
                s.append("' not found. Pull with: ollama pull ");
                s.append(m.as_str());
            },
            LlmError::ApiStatus(st) => {
                s.append("Ollama API error (");
                s.append(st.as_str());
                s.append(")");
            },
            LlmError::ApiStatusBody(st, body) => {
                s.append("Ollama API error (");
                s.append(st.as_str());
                s.append("): ");
                s.append(body.as_str());
            },
            LlmError::StreamRead => s.append("Failed to read response stream"),
            LlmError::Ollama(e) => {
                s.append("Ollama error: ");
                s.append(e.as_str());
            },
        }
        s
    }
}


/// The message for a missing model says that it was not found and how to
/// pull it.
pub proof fn law_missing_model_message(model: String)
    ensures
        contains_seq(error_text(LlmError::ModelNotFound(model)), "not found"@),
        contains_seq(error_text(LlmError::ModelNotFound(model)), "ollama pull"@),
{
    reveal_strlit("Model '");
    reveal_strlit("' not found. Pull with: ollama pull ");
    reveal_strlit("not found");
    reveal_strlit("ollama pull");
    let a = "Model '"@;
    let b = "' not found. Pull with: ollama pull "@;
    let m = model@;
    let t = error_text(LlmError::ModelNotFound(model));
    assert(t == a + m + b + m);
    let i: int = 7 + m.len() as int;
    assert(t.subrange(i + 2, i + 11) =~= "not found"@);
    assert(t.subrange(i + 24, i + 35) =~= "ollama pull"@);
    assert(occurs_at(t, "not found"@, i + 2));
    assert(occurs_at(t, "ollama pull"@, i + 24));
}

/// The error for a request that could not be sent: a refused connection or
/// a timeout means the server is not running.
pub fn send_error(is_connect: bool, is_timeout: bool, detail: &str) -> (r: LlmError)
    ensures
        is_connect || is_timeout ==> r is NotRunning,
        !(is_connect || is_timeout) ==> (r matches LlmError::ConnectFailed(d) && d@ == detail@),
{
    if is_connect || is_timeout {
        LlmError::NotRunning
    } else {
        LlmError::ConnectFailed(copy_str(detail))
    }
}

/// How an HTTP status is handled.
pub enum StatusClass {
    /// 2xx: read the streamed reply.
    Success,
    /// 404: the server's error message tells whether the model is missing.
    NotFound,
    /// Any other status: report it with the body.
    Failure,
}

pub fn classify_status(code: u16) -> (r: StatusClass)
    ensures
        code == 404 ==> r is NotFound,
        code != 404 && 200 <= code <= 299 ==> r is Success,
        code != 404 && !(200 <= code <= 299) ==> r is Failure,
{
    if code == 404 {
        StatusClass::NotFound
    } else if 200 <= code && code <= 299 {
        StatusClass::Success
    } else {
        StatusClass::Failure
    }
}

/// The server's error text speaks of a missing model.
pub open spec fn names_missing_model(e: Seq<char>) -> bool {
    contains_seq(e, "model"@) || contains_seq(e, "not found"@)
}

/// The error for a 404 reply whose body carried `error_message` (empty when
/// it had none), with the status shown as `status`.
pub fn not_found_error(model: &str, status: &str, error_message: &str) -> (r: LlmError)
    ensures
        names_missing_model(error_message@) ==> (r matches LlmError::ModelNotFound(m) && m@
            == model@),
        !names_missing_model(error_message@) ==> (r matches LlmError::ApiStatus(st) && st@
            == status@),
{
    if str_contains(error_message, "model") || str_contains(error_message, "not found") {
        LlmError::ModelNotFound(copy_str(model))
    } else {
        LlmError::ApiStatus(copy_str(status))
    }
}

/// The base URL: `TA_OLLAMA_URL` when it is set, else the configured one.
pub fn resolve_base_url(env_url: Option<String>, configured_url: &str) -> (r: String)
    ensures
        env_url matches Some(u) ==> r == u,
        env_url is None ==> r@ == configured_url@,
{
    match env_url {
        Some(u) => u,
        None => copy_str(configured_url),
    }
}

// ---------------------------------------------------------------------------
// The streamed reply
// ---------------------------------------------------------------------------

/// `String::from_utf8_lossy`: the bytes decoded as UTF-8, each invalid
/// sequence replaced by U+FFFD.
pub uninterp spec fn utf8_lossy(bytes: Seq<u8>) -> Seq<char>;

/// Decodes `bytes` with `String::from_utf8_lossy`. Its result is named by
/// `utf8_lossy`; on valid UTF-8 std documents it to be the decoded text.
#[verifier::external_body]
fn decode_lossy(bytes: &[u8]) -> (r: String)
    ensures
        r@ == utf8_lossy(bytes@),
        valid_utf8(bytes@) ==> r@ == decode_utf8(bytes@),
{
    String::from_utf8_lossy(bytes).into_owned()
}

/// Position of the first newline byte, if any.
pub open spec fn first_newline(buf: Seq<u8>) -> Option<int> {
    if exists|i: int| 0 <= i < buf.len() && buf[i] == 10u8 {
        Some(
            choose|i: int|
                0 <= i < buf.len() && buf[i] == 10u8 && forall|j: int| 0 <= j < i ==> buf[j] != 10u8,
        )
    } else {
        None
    }
}

/// The next non-blank line of `buf` (trimmed) and what remains after it;
/// blank lines are consumed and skipped. Without a complete line, nothing
/// is consumed.
pub open spec fn split_line(buf: Seq<u8>) -> (Option<Seq<char>>, Seq<u8>)
    decreases buf.len(),
{
    match first_newline(buf) {
        None => (None, buf),
        Some(p) => {
            if 0 <= p < buf.len() {
                let line = trim(utf8_lossy(buf.subrange(0, p + 1)));
                let rest = buf.subrange(p + 1, buf.len() as int);
                if line.len() == 0 {
                    split_line(rest)
                } else {
                    (Some(line), rest)
                }
            } else {
                (None, buf)
            }
        },
    }
}



proof fn lemma_least_newline(s: Seq<u8>, k: int)
    requires
        0 <= k <= s.len(),
        exists|i: int| 0 <= i < s.len() && s[i] == 10u8,
        forall|j: int| 0 <= j < k ==> s[j] != 10u8,
    ensures
        exists|x: int|
            0 <= x < s.len() && s[x] == 10u8 && forall|j: int| 0 <= j < x ==> s[j] != 10u8,
    decreases s.len() - k,
{
    if k < s.len() {
        if s[k] == 10u8 {
            assert(0 <= k < s.len() && s[k] == 10u8 && forall|j: int| 0 <= j < k ==> s[j] != 10u8);
        } else {
            lemma_least_newline(s, k + 1);
        }
    } else {
        let i = choose|i: int| 0 <= i < s.len() && s[i] == 10u8;
        assert(s[i] != 10u8);
    }
}

proof fn lemma_first_newline_at(s: Seq<u8>, p: int)
    requires
        0 <= p < s.len(),
        s[p] == 10u8,
        forall|j: int| 0 <= j < p ==> s[j] != 10u8,
    ensures
        first_newline(s) == Some(p),
{
    let x = choose|x: int|
        0 <= x < s.len() && s[x] == 10u8 && forall|j: int| 0 <= j < x ==> s[j] != 10u8;
    assert(0 <= x < s.len() && s[x] == 10u8 && forall|j: int| 0 <= j < x ==> s[j] != 10u8);
    if x < p {
        assert(s[x] != 10u8);
    }
    if x > p {
        assert(s[p] != 10u8);
    }
}

/// Bytes that arrive after a complete line do not change that line or the
/// blank lines skipped before it: what the decoder reads does not depend on
/// where the reply was cut into chunks.
pub proof fn law_complete_line_is_stable(a: Seq<u8>, b: Seq<u8>)
    requires
        split_line(a).0 is Some,
    ensures
        split_line(a + b) == (split_line(a).0, split_line(a).1 + b),
    decreases a.len(),
{
    assert(first_newline(a) is Some);
    lemma_least_newline(a, 0);
    let p = first_newline(a)->0;
    assert(0 <= p < a.len() && a[p] == 10u8 && forall|j: int| 0 <= j < p ==> a[j] != 10u8);
    let ab = a + b;
    assert forall|j: int| 0 <= j < p implies ab[j] != 10u8 by {
        assert(ab[j] == a[j]);
    }
    lemma_first_newline_at(ab, p);
    assert(ab.subrange(0, p + 1) =~= a.subrange(0, p + 1));
    let rest_a = a.subrange(p + 1, a.len() as int);
    assert(ab.subrange(p + 1, ab.len() as int) =~= rest_a + b);
    let line = trim(utf8_lossy(a.subrange(0, p + 1)));
    if line.len() == 0 {
        law_complete_line_is_stable(rest_a, b);
    }
}

/// One JSON object of the streamed reply, as far as it was understood.
pub struct StreamChunk {
    pub response: Option<String>,
    pub done: Option<bool>,
    pub error: Option<String>,
}

/// What to do after a line of the reply.
pub enum ChunkStep {
    /// Keep reading.
    Continue,
    /// The model is done; stop reading.
    Finished,
    /// The server reported an error.
    Failed(LlmError),
}

/// Collects the streamed reply of `/api/generate` line by line.
pub struct StreamDecoder {
    model: String,
    buffer: Vec<u8>,
    text: String,
}

impl StreamDecoder {
    /// Bytes received but not yet split into lines.
    pub closed spec fn pending(&self) -> Seq<u8> {
        self.buffer@
    }

    /// The model's answer collected so far.
    pub closed spec fn collected(&self) -> Seq<char> {
        self.text@
    }

    /// The model the request was made for.
    pub closed spec fn model_name(&self) -> Seq<char> {
        self.model@
    }

    pub fn new(model: String) -> (r: Self)
        ensures
            r.pending().len() == 0,
            r.collected().len() == 0,
            r.model_name() == model@,
    {
        StreamDecoder { model, buffer: Vec::new(), text: String::new() }
    }

    /// Adds received bytes.
    pub fn feed(&mut self, bytes: &[u8])
        ensures
            final(self).pending() == old(self).pending() + bytes@,
            final(self).collected() == old(self).collected(),
            final(self).model_name() == old(self).model_name(),
    {
        let mut i: usize = 0;
        let ghost start = self.buffer@;
        while i < bytes.len()
            invariant
                i <= bytes.len(),
                self.buffer@ == start + bytes@.subrange(0, i as int),
                self.text == old(self).text,
                self.model == old(self).model,
            decreases bytes.len() - i,
        {
            self.buffer.push(bytes[i]);
            assert(start + bytes@.subrange(0, i + 1) =~= (start + bytes@.subrange(0, i as int)).push(
                bytes@[i as int],
            ));
            i = i + 1;
        }
        assert(bytes@.subrange(0, bytes@.len() as int) =~= bytes@);
    }

    /// Takes the next non-blank line out of the received bytes (see
    /// `split_line`).
    pub fn next_line(&mut self) -> (r: Option<String>)
        ensures
            match r {
                Some(l) => split_line(old(self).pending()) == (Some(l@), final(self).pending()),
                None => split_line(old(self).pending()) == (None::<Seq<char>>, final(self).pending()),
            },
            final(self).collected() == old(self).collected(),
            final(self).model_name() == old(self).model_name(),
    {
        loop
            invariant
                split_line(self.buffer@) == split_line(old(self).buffer@),
                self.text == old(self).text,
                self.model == old(self).model,
            decreases self.buffer@.len(),
        {
            let p = match find_byte(&self.buffer, 10u8) {
                Some(p) => p,
                None => {
                    return None;
                },
            };
            let mut line_bytes = self.buffer.split_off(p + 1);
            std::mem::swap(&mut self.buffer, &mut line_bytes);
            let decoded = decode_lossy(line_bytes.as_slice());
            let line = trimmed(decoded.as_str());
            if line.as_str().unicode_len() > 0 {
                return Some(line);
            }
        }
    }

    /// Takes in one line of the reply, parsed (`None` when it was not a
    /// chunk object, which is skipped).
    pub fn accept(&mut self, chunk: Option<StreamChunk>) -> (r: ChunkStep)
        ensures
            final(self).pending() == old(self).pending(),
            final(self).model_name() == old(self).model_name(),
            match chunk {
                None => r is Continue && final(self).collected() == old(self).collected(),
                Some(c) => match c.error {
                    Some(e) => final(self).collected() == old(self).collected() && if names_missing_model(
                        e@,
                    ) {
                        r matches ChunkStep::Failed(LlmError::ModelNotFound(m)) && m@
                            == old(self).model_name()
                    } else {
                        r matches ChunkStep::Failed(LlmError::Ollama(t)) && t@ == e@
                    },
                    None => final(self).collected() == old(self).collected() + match c.response {
                        Some(t) => t@,
                        None => Seq::<char>::empty(),
                    } && (if c.done == Some(true) {
                        r is Finished
                    } else {
                        r is Continue
                    }),
                },
            },
    {
        match chunk {
            None => ChunkStep::Continue,
            Some(c) => {
                match c.error {
                    Some(e) => {
                        if str_contains(e.as_str(), "not found") || str_contains(e.as_str(), "model") {
                            ChunkStep::Failed(LlmError::ModelNotFound(copy_str(self.model.as_str())))
                        } else {
                            ChunkStep::Failed(LlmError::Ollama(e))
                        }
                    },
                    None => {
                        match c.response {
                            Some(t) => self.text.append(t.as_str()),
                            None => {
                                assert(self.text@ + Seq::<char>::empty() =~= self.text@);
                            },
                        }
                        if c.done == Some(true) {
                            ChunkStep::Finished
                        } else {
                            ChunkStep::Continue
                        }
                    },
                }
            },
        }
    }

    /// The command the collected answer stands for.
    pub fn finish(&self) -> (r: String)
        ensures
            r@ == cleaned(self.collected()),
    {
        clean_command(self.text.as_str())
    }
}

/// The first `b` in `v`.
fn find_byte(v: &Vec<u8>, b: u8) -> (r: Option<usize>)
    ensures
        r matches Some(p) ==> first_newline(v@) == Some(p as int) || b != 10u8,
        r matches Some(p) ==> p < v.len() && v@[p as int] == b && forall|j: int|
            0 <= j < p ==> v@[j] != b,
        r is None ==> forall|j: int| 0 <= j < v.len() ==> v@[j] != b,
{
    let mut i: usize = 0;
    while i < v.len()
        invariant
            i <= v.len(),
            forall|j: int| 0 <= j < i ==> v@[j] != b,
        decreases v.len() - i,
    {
        if v[i] == b {
            proof {
                if b == 10u8 {
                    let s = v@;
                    let k = i as int;
                    assert(0 <= k < s.len() && s[k] == 10u8 && forall|j: int|
                        0 <= j < k ==> s[j] != 10u8);
                    let x = choose|x: int|
                        0 <= x < s.len() && s[x] == 10u8 && forall|j: int| 0 <= j < x ==> s[j] != 10u8;
                    if x < k {
                        assert(s[x] != 10u8);
                    }
                    if x > k {
                        assert(s[k] != 10u8);
                    }
                }
            }
            return Some(i);
        }
        i = i + 1;
    }
    None
}

} // verus!
