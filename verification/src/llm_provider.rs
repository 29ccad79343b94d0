//! The language-model providers' logic: endpoints and request URLs, the
//! cleaning of model output, the extraction of the reply from a cloud
//! payload, and the retry protocol of the cloud provider.
use vstd::prelude::*;
use vstd::string::StringExecFns;
use crate::text::{
    char_views, chars_of, contains, eq_ignore_ascii_case, is_blank, join, join_chars, lines,
    lines_of, lowercase, opt_view, parse_u64, remove_all, remove_all_chars, str_contains,
    str_eq_ignore_ascii_case, str_parse_u64, string_of, string_views, to_lowercase, trim,
    trim_chars, trim_end_char, trim_end_char_str, trim_str, is_ws, lacks, lemma_join_front_items,
    lemma_lines_lack_newline, lemma_lines_of_join, lemma_remove_all_lacks, lemma_trim,
    lemma_lines_lack_pattern, lemma_remove_absent, lemma_split_of_join, lemma_trim_idempotent,
    lemma_trim_lacks_pattern, split_on, trim_end, trim_start,
};

verus! {

/// Why a provider gave no reply.
#[derive(Debug, Clone)]
pub enum ProviderError {
    /// The cloud provider has no API key.
    MissingApiKey,
    /// Every cloud attempt failed; the description of the last failure.
    CloudFailed { last_error: String },
    /// The transport failed (connection, HTTP status, JSON); its description.
    Transport { message: String },
}

/// The text of each failure.
pub open spec fn provider_error_message(e: ProviderError) -> Seq<char> {
    match e {
        ProviderError::MissingApiKey => "cloud api key ausente"@,
        ProviderError::CloudFailed { last_error } => "cloud retornou erro: "@ + last_error@,
        ProviderError::Transport { message } => message@,
    }
}

impl ProviderError {
    /// The text of this failure.
    pub fn message(&self) -> (r: String)
        ensures
            r@ == provider_error_message(*self),
    {
        match self {
            ProviderError::MissingApiKey => String::from_str("cloud api key ausente"),
            ProviderError::CloudFailed { last_error } => String::from_str(
                "cloud retornou erro: ",
            ).concat(last_error.as_str()),
            ProviderError::Transport { message } => message.clone(),
        }
    }
}

/// A language model that answers a prompt with lines of text.
pub trait LlmProvider {
    fn generate_stream(&self, prompt: &str) -> Result<Vec<String>, ProviderError>;
}

/// The optional remote provider, not built yet: it answers with a notice.
#[derive(Debug, Clone, Copy)]
pub struct RemoteProvider;

impl Default for RemoteProvider {
    fn default() -> (r: RemoteProvider) {
        RemoteProvider
    }
}

impl LlmProvider for RemoteProvider {
    fn generate_stream(&self, prompt: &str) -> (r: Result<Vec<String>, ProviderError>)
        ensures
            r matches Ok(v) && v@.len() == 1 && v@[0]@
                == "[stub] provider remoto opcional será feito em M6"@,
    {
        let mut v: Vec<String> = Vec::new();
        v.push(String::from_str("[stub] provider remoto opcional será feito em M6"));
        Ok(v)
    }
}

/// The models recommended for a machine with 18 GB of memory.
pub fn model_recommendation_for_18gb() -> (r: &'static str)
    ensures
        r@ == "Docker: codellama:7b-instruct | Cloud: modelo compatível OpenAI"@,
{
    "Docker: codellama:7b-instruct | Cloud: modelo compatível OpenAI"
}

/// `line` with the chat-template markers taken out, one marker after the
/// other.
pub open spec fn strip_markers(line: Seq<char>) -> Seq<char> {
    remove_all(
        remove_all(remove_all(remove_all(line, "<|im_start|>"@), "<|im_end|>"@), "<|end|>"@),
        "_end|>"@,
    )
}

/// The lines of model output worth keeping: each trimmed, stripped of
/// markers and trimmed again, and dropped where nothing is left.
pub open spec fn kept_lines(ls: Seq<Seq<char>>) -> Seq<Seq<char>>
    decreases ls.len(),
{
    if ls.len() == 0 {
        seq![]
    } else {
        let prev = kept_lines(ls.drop_last());
        let t = trim(ls.last());
        if t.len() == 0 {
            prev
        } else {
            let c = trim(strip_markers(t));
            if c.len() == 0 {
                prev
            } else {
                prev.push(c)
            }
        }
    }
}

/// Model output cleaned: its kept lines, one per line.
pub open spec fn sanitize(raw: Seq<char>) -> Seq<char> {
    join(kept_lines(lines(raw)), "\n"@)
}

/// Cleans model output: trims each line, takes out the chat-template
/// markers, and drops the lines left blank.
pub fn sanitize_model_output(raw: &str) -> (r: String)
    ensures
        r@ == sanitize(raw@),
{
    let ls = lines_of(&chars_of(raw));
    let m0 = chars_of("<|im_start|>");
    let m1 = chars_of("<|im_end|>");
    let m2 = chars_of("<|end|>");
    let m3 = chars_of("_end|>");
    let mut kept: Vec<Vec<char>> = Vec::new();
    let mut i: usize = 0;
    assert(char_views(ls@).take(0) =~= Seq::<Seq<char>>::empty());
    assert(char_views(kept@) =~= Seq::<Seq<char>>::empty());
    while i < ls.len()
        invariant
            i <= ls.len(),
            m0@ == "<|im_start|>"@,
            m1@ == "<|im_end|>"@,
            m2@ == "<|end|>"@,
            m3@ == "_end|>"@,
            char_views(kept@) == kept_lines(char_views(ls@).take(i as int)),
        decreases ls.len() - i,
    {
        let ghost prev = char_views(kept@);
        assert(char_views(ls@).take(i + 1).drop_last() == char_views(ls@).take(i as int));
        assert(char_views(ls@).take(i + 1).last() == ls@[i as int]@);
        let t = trim_chars(&ls[i]);
        if t.len() > 0 {
            let s0 = remove_all_chars(&t, &m0);
            let s1 = remove_all_chars(&s0, &m1);
            let s2 = remove_all_chars(&s1, &m2);
            let s3 = remove_all_chars(&s2, &m3);
            let c = trim_chars(&s3);
            if c.len() > 0 {
                let ghost cv = c@;
                kept.push(c);
                assert(char_views(kept@) =~= prev.push(cv));
            }
        }
        i += 1;
    }
    assert(char_views(ls@).take(ls.len() as int) == char_views(ls@));
    let nl = chars_of("\n");
    string_of(&join_chars(&kept, &nl))
}

/// The lines of `ls` that are not blank.
pub open spec fn nonblank(ls: Seq<Seq<char>>) -> Seq<Seq<char>>
    decreases ls.len(),
{
    if ls.len() == 0 {
        seq![]
    } else if trim(ls.last()).len() == 0 {
        nonblank(ls.drop_last())
    } else {
        nonblank(ls.drop_last()).push(ls.last())
    }
}

/// Which provider answered.
#[derive(Debug, Clone, Copy, PartialEq, Eq, Structural)]
pub enum ProviderKind {
    Docker,
    Cloud,
}

/// What each provider answers when the model's reply is blank.
pub open spec fn empty_reply(kind: ProviderKind) -> Seq<char> {
    match kind {
        ProviderKind::Docker => "[llm-docker] resposta vazia"@,
        ProviderKind::Cloud => "[llm-cloud] resposta vazia"@,
    }
}

/// The lines a provider answers for the model text `text`: the non-blank
/// lines of the cleaned text, or the provider's notice where it is blank.
pub open spec fn reply(text: Seq<char>, kind: ProviderKind) -> Seq<Seq<char>> {
    let s = sanitize(text);
    if trim(s).len() == 0 {
        seq![empty_reply(kind)]
    } else {
        nonblank(lines(s))
    }
}

/// The lines a provider answers for the model text `text`.
pub fn reply_lines(kind: ProviderKind, text: &str) -> (r: Vec<String>)
    ensures
        string_views(r@) == reply(text@, kind),
{
    let sanitized = sanitize_model_output(text);
    let mut r: Vec<String> = Vec::new();
    if is_blank(sanitized.as_str()) {
        let notice = match kind {
            ProviderKind::Docker => String::from_str("[llm-docker] resposta vazia"),
            ProviderKind::Cloud => String::from_str("[llm-cloud] resposta vazia"),
        };
        r.push(notice);
        assert(string_views(r@) =~= seq![empty_reply(kind)]);
        return r;
    }
    let ls = lines_of(&chars_of(sanitized.as_str()));
    let mut i: usize = 0;
    assert(char_views(ls@).take(0) =~= Seq::<Seq<char>>::empty());
    assert(string_views(r@) =~= Seq::<Seq<char>>::empty());
    while i < ls.len()
        invariant
            i <= ls.len(),
            string_views(r@) == nonblank(char_views(ls@).take(i as int)),
        decreases ls.len() - i,
    {
        let ghost prev = string_views(r@);
        assert(char_views(ls@).take(i + 1).drop_last() == char_views(ls@).take(i as int));
        assert(char_views(ls@).take(i + 1).last() == ls@[i as int]@);
        let t = trim_chars(&ls[i]);
        if t.len() > 0 {
            let line = string_of(&ls[i]);
            let ghost lv = line@;
            r.push(line);
            assert(string_views(r@) =~= prev.push(lv));
        }
        i += 1;
    }
    assert(char_views(ls@).take(ls.len() as int) == char_views(ls@));
    r
}

/// The Docker endpoint, `http://127.0.0.1:11434` where none is set.
pub open spec fn endpoint_base(endpoint_url: Option<Seq<char>>) -> Seq<char> {
    match endpoint_url {
        Some(u) => u,
        None => "http://127.0.0.1:11434"@,
    }
}

/// The Docker endpoint to use.
pub fn endpoint_base_url(endpoint_url: Option<&str>) -> (r: String)
    ensures
        r@ == endpoint_base(opt_view(endpoint_url)),
{
    match endpoint_url {
        Some(u) => String::from_str(u),
        None => String::from_str("http://127.0.0.1:11434"),
    }
}

/// The cloud endpoint, `https://api.openai.com` where none is set.
pub open spec fn cloud_base(cloud_url: Option<Seq<char>>) -> Seq<char> {
    match cloud_url {
        Some(u) => u,
        None => "https://api.openai.com"@,
    }
}

/// The cloud endpoint to use.
pub fn cloud_base_url(cloud_url: Option<&str>) -> (r: String)
    ensures
        r@ == cloud_base(opt_view(cloud_url)),
{
    match cloud_url {
        Some(u) => String::from_str(u),
        None => String::from_str("https://api.openai.com"),
    }
}

/// `path` under `base`, without doubling the separator.
pub fn api_url(base: &str, path: &str) -> (r: String)
    ensures
        r@ == trim_end_char(base@, '/') + path@,
{
    let mut r = trim_end_char_str(base, '/');
    r.append(path);
    r
}

/// The cloud endpoint is an Azure OpenAI one.
pub fn is_azure_endpoint(cloud_url: &str) -> (b: bool)
    ensures
        b == contains(cloud_url@, "openai.azure.com"@),
{
    str_contains(cloud_url, "openai.azure.com")
}

/// `url` is one of the Responses API.
pub open spec fn is_responses(url: Seq<char>) -> bool {
    contains(url, "/responses"@) || contains(url, "/openai/responses"@)
}

/// Whether `url` is one of the Responses API.
pub fn is_responses_url(url: &str) -> (b: bool)
    ensures
        b == is_responses(url@),
{
    str_contains(url, "/responses") || str_contains(url, "/openai/responses")
}

/// The URL a cloud request goes to: the endpoint trimmed, as it is where it
/// names an API path or a query already, else with `/v1/chat/completions`.
pub open spec fn cloud_request_url(cloud_url: Seq<char>) -> Seq<char> {
    let t = trim_end_char(trim(cloud_url), '/');
    if contains(t, "/openai/"@) || contains(t, "/v1/"@) || contains(t, "?"@) {
        t
    } else {
        t + "/v1/chat/completions"@
    }
}

/// The URL a cloud request goes to.
pub fn resolved_cloud_request_url(cloud_url: &str) -> (r: String)
    ensures
        r@ == cloud_request_url(cloud_url@),
{
    let trimmed_ws = trim_str(cloud_url);
    let mut t = trim_end_char_str(trimmed_ws.as_str(), '/');
    if str_contains(t.as_str(), "/openai/") || str_contains(t.as_str(), "/v1/") || str_contains(
        t.as_str(),
        "?",
    ) {
        return t;
    }
    t.append("/v1/chat/completions");
    t
}

/// The request timeout in seconds: the configured value where it is a
/// number of at least 30, else 180.
pub open spec fn timeout_secs(configured: Option<Seq<char>>) -> u64 {
    match configured {
        Some(v) => match parse_u64(trim(v)) {
            Some(n) => if n >= 30 {
                n
            } else {
                180
            },
            None => 180,
        },
        None => 180,
    }
}

/// The request timeout for the configured value (`None` where none is set).
pub fn request_timeout_secs(configured: Option<&str>) -> (r: u64)
    ensures
        r == timeout_secs(opt_view(configured)),
        r >= 30,
{
    match configured {
        Some(v) => {
            let t = trim_str(v);
            match str_parse_u64(t.as_str()) {
                Some(n) => if n >= 30 {
                    n
                } else {
                    180
                },
                None => 180,
            }
        },
        None => 180,
    }
}

/// Accepts a cloud configuration whose API key is set and not blank.
pub fn validate_cloud_api_key(api_key: Option<&str>) -> (r: Result<(), ProviderError>)
    ensures
        match api_key {
            Some(k) => trim(k@).len() > 0,
            None => false,
        } ==> r is Ok,
        !match api_key {
            Some(k) => trim(k@).len() > 0,
            None => false,
        } ==> r matches Err(ProviderError::MissingApiKey),
{
    let key = match api_key {
        Some(k) => k,
        None => "",
    };
    proof {
        reveal_strlit("");
    }
    if is_blank(key) {
        Err(ProviderError::MissingApiKey)
    } else {
        Ok(())
    }
}

/// The body field that caps the reply's length.
pub fn token_limit_field(is_responses: bool) -> (r: &'static str)
    ensures
        is_responses ==> r@ == "max_completion_tokens"@,
        !is_responses ==> r@ == "max_tokens"@,
{
    if is_responses {
        "max_completion_tokens"
    } else {
        "max_tokens"
    }
}

/// The effect of a lowercased cloud error text on the optional sampling
/// parameters: the new `(include_temperature, include_top_p)` and whether
/// one was dropped. An "unsupported parameter" error drops the temperature
/// where it names it and it is still sent, else `top_p` likewise.
pub open spec fn lowered_param_outcome(lower: Seq<char>, include_temperature: bool, include_top_p: bool) -> (
    bool,
    bool,
    bool,
) {
    if !contains(lower, "unsupported parameter"@) {
        (include_temperature, include_top_p, false)
    } else if contains(lower, "temperature"@) && include_temperature {
        (false, include_top_p, true)
    } else if contains(lower, "top_p"@) && include_top_p {
        (include_temperature, false, true)
    } else {
        (include_temperature, include_top_p, false)
    }
}

/// The effect of a cloud error text: that of its lowercase form.
pub open spec fn unsupported_param_outcome(text: Seq<char>, include_temperature: bool, include_top_p: bool) -> (
    bool,
    bool,
    bool,
) {
    lowered_param_outcome(lowercase(text), include_temperature, include_top_p)
}

/// Drops the parameter that a lowercased cloud error calls unsupported;
/// tells whether it dropped one.
pub fn drop_unsupported_parameter(
    lowered_error: &str,
    include_temperature: &mut bool,
    include_top_p: &mut bool,
) -> (r: bool)
    ensures
        (*final(include_temperature), *final(include_top_p), r) == lowered_param_outcome(
            lowered_error@,
            *old(include_temperature),
            *old(include_top_p),
        ),
{
    if !str_contains(lowered_error, "unsupported parameter") {
        return false;
    }
    if str_contains(lowered_error, "temperature") && *include_temperature {
        *include_temperature = false;
        return true;
    }
    if str_contains(lowered_error, "top_p") && *include_top_p {
        *include_top_p = false;
        return true;
    }
    false
}

/// Drops the parameter that a cloud error calls unsupported; tells whether
/// it dropped one.
pub fn handle_unsupported_parameter_error(
    error_text: &str,
    include_temperature: &mut bool,
    include_top_p: &mut bool,
) -> (r: bool)
    ensures
        (*final(include_temperature), *final(include_top_p), r) == unsupported_param_outcome(
            error_text@,
            *old(include_temperature),
            *old(include_top_p),
        ),
{
    let lower = to_lowercase(error_text);
    drop_unsupported_parameter(lower.as_str(), include_temperature, include_top_p)
}

/// What the reply extraction reads of a cloud JSON payload.
#[derive(Debug, Clone)]
pub struct CloudPayload {
    /// `output_text`, where it is a string.
    pub output_text: Option<String>,
    /// Where `output` is an array: the `text` strings of the `content`
    /// arrays of its items, in order.
    pub output_texts: Option<Vec<String>>,
    /// `choices[0].message.content`, where it is a string.
    pub first_choice_content: Option<String>,
}

/// The texts of a Responses payload, each on its own line except after an
/// empty start.
pub open spec fn collected_text(texts: Seq<Seq<char>>) -> Seq<char>
    decreases texts.len(),
{
    if texts.len() == 0 {
        seq![]
    } else {
        let c = collected_text(texts.drop_last());
        if c.len() > 0 {
            c + "\n"@ + texts.last()
        } else {
            c + texts.last()
        }
    }
}

/// The model text of a cloud payload: for the Responses API its
/// `output_text`, else its collected output texts where they are not blank;
/// otherwise the first choice's content, or nothing.
pub open spec fn extracted_text(payload: CloudPayload, request_url: Seq<char>) -> Seq<char> {
    let fallback = match payload.first_choice_content {
        Some(c) => c@,
        None => seq![],
    };
    if is_responses(request_url) {
        match payload.output_text {
            Some(t) => t@,
            None => match payload.output_texts {
                Some(ts) => if trim(collected_text(string_views(ts@))).len() > 0 {
                    collected_text(string_views(ts@))
                } else {
                    fallback
                },
                None => fallback,
            },
        }
    } else {
        fallback
    }
}

fn collect_output_texts(texts: &Vec<String>) -> (r: String)
    ensures
        r@ == collected_text(string_views(texts@)),
{
    let mut collected = String::new();
    let mut i: usize = 0;
    assert(string_views(texts@).take(0) =~= Seq::<Seq<char>>::empty());
    while i < texts.len()
        invariant
            i <= texts.len(),
            collected@ == collected_text(string_views(texts@).take(i as int)),
        decreases texts.len() - i,
    {
        assert(string_views(texts@).take(i + 1).drop_last() == string_views(texts@).take(i as int));
        assert(string_views(texts@).take(i + 1).last() == texts@[i as int]@);
        if !collected.as_str().is_empty() {
            collected.append("\n");
        }
        collected.append(texts[i].as_str());
        i += 1;
    }
    assert(string_views(texts@).take(texts.len() as int) == string_views(texts@));
    collected
}

/// The model text of `payload`, answered by a request to `request_url`.
pub fn extract_text_from_cloud_payload(payload: &CloudPayload, request_url: &str) -> (r: String)
    ensures
        r@ == extracted_text(*payload, request_url@),
{
    if is_responses_url(request_url) {
        if let Some(out) = &payload.output_text {
            return out.clone();
        }
        if let Some(texts) = &payload.output_texts {
            let collected = collect_output_texts(texts);
            if !is_blank(collected.as_str()) {
                return collected;
            }
        }
    }
    match &payload.first_choice_content {
        Some(c) => c.clone(),
        None => String::new(),
    }
}

/// How a cloud request authenticates.
#[derive(Debug, Clone, Copy, PartialEq, Eq, Structural)]
pub enum AuthMode {
    ApiKey,
    Bearer,
    Auto,
}

/// The name of each mode.
pub open spec fn auth_mode_name(m: AuthMode) -> Seq<char> {
    match m {
        AuthMode::ApiKey => "api-key"@,
        AuthMode::Bearer => "bearer"@,
        AuthMode::Auto => "auto"@,
    }
}

impl AuthMode {
    /// The name of this mode.
    pub fn name(&self) -> (r: &'static str)
        ensures
            r@ == auth_mode_name(*self),
    {
        match self {
            AuthMode::ApiKey => "api-key",
            AuthMode::Bearer => "bearer",
            AuthMode::Auto => "auto",
        }
    }
}

/// The mode that a configured name selects, ignoring ASCII case; `Auto`
/// where none is configured or the name is another.
pub open spec fn preferred_mode(configured: Option<Seq<char>>) -> AuthMode {
    match configured {
        Some(v) => if eq_ignore_ascii_case(v, "api-key"@) {
            AuthMode::ApiKey
        } else if eq_ignore_ascii_case(v, "bearer"@) {
            AuthMode::Bearer
        } else {
            AuthMode::Auto
        },
        None => AuthMode::Auto,
    }
}

/// The mode that the configured name selects.
pub fn preferred_auth_mode(configured: Option<&str>) -> (m: AuthMode)
    ensures
        m == preferred_mode(opt_view(configured)),
{
    match configured {
        Some(v) => if str_eq_ignore_ascii_case(v, "api-key") {
            AuthMode::ApiKey
        } else if str_eq_ignore_ascii_case(v, "bearer") {
            AuthMode::Bearer
        } else {
            AuthMode::Auto
        },
        None => AuthMode::Auto,
    }
}

/// The modes to try, in order: the preferred one first, then the other;
/// with no preference, bearer alone except on Azure, where the API key
/// follows it.
pub open spec fn auth_order(preferred: AuthMode, is_azure: bool) -> Seq<AuthMode> {
    match preferred {
        AuthMode::ApiKey => seq![AuthMode::ApiKey, AuthMode::Bearer],
        AuthMode::Bearer => seq![AuthMode::Bearer, AuthMode::ApiKey],
        AuthMode::Auto => if is_azure {
            seq![AuthMode::Bearer, AuthMode::ApiKey]
        } else {
            seq![AuthMode::Bearer]
        },
    }
}

/// The modes to try, in order.
pub fn auth_attempt_order(preferred: AuthMode, is_azure: bool) -> (r: Vec<AuthMode>)
    ensures
        r@ == auth_order(preferred, is_azure),
{
    let mut r: Vec<AuthMode> = Vec::new();
    match preferred {
        AuthMode::ApiKey => {
            r.push(AuthMode::ApiKey);
            r.push(AuthMode::Bearer);
        },
        AuthMode::Bearer => {
            r.push(AuthMode::Bearer);
            r.push(AuthMode::ApiKey);
        },
        AuthMode::Auto => {
            r.push(AuthMode::Bearer);
            if is_azure {
                r.push(AuthMode::ApiKey);
            }
        },
    }
    assert(r@ =~= auth_order(preferred, is_azure));
    r
}

/// How many rounds of attempts a cloud request gets.
pub const CLOUD_ROUNDS: usize = 4;

/// A cloud request to send: how to authenticate and which optional
/// sampling parameters to include.
#[derive(Debug, Clone, Copy, PartialEq, Eq, Structural)]
pub struct CloudRequest {
    pub auth: AuthMode,
    pub include_temperature: bool,
    pub include_top_p: bool,
}

/// The state of a cloud exchange: the modes to try, the round and the mode
/// of the next attempt, the parameters still sent, and the last failure.
pub struct ExchangeState {
    pub modes: Seq<AuthMode>,
    pub round: nat,
    pub mode_index: nat,
    pub include_temperature: bool,
    pub include_top_p: bool,
    pub last_error: Seq<char>,
}

/// A consistent state: within the rounds, an attempt names a mode; after the
/// last round, nothing is left to try.
pub open spec fn exchange_wf(s: ExchangeState) -> bool {
    &&& s.round <= CLOUD_ROUNDS
    &&& s.round < CLOUD_ROUNDS ==> s.mode_index < s.modes.len()
    &&& s.round == CLOUD_ROUNDS ==> s.mode_index == 0
}

/// The attempts left: all modes of each round to come, and the modes left
/// in this one.
pub open spec fn attempts_left(s: ExchangeState) -> int {
    (CLOUD_ROUNDS - s.round) * s.modes.len() - s.mode_index
}

/// The failure text of an attempt in mode `mode` answered with the status
/// `status_text` and the body `body`.
pub open spec fn attempt_error(mode: AuthMode, status_text: Seq<char>, body: Seq<char>) -> Seq<char> {
    "auth="@ + auth_mode_name(mode) + " -> HTTP "@ + status_text + ": "@ + body
}

/// The retry protocol of the cloud provider: up to four rounds, each trying
/// the authentication modes in order until one is not refused with 401 or
/// 403; a 400 that names an unsupported parameter drops it for the next
/// round.
pub struct CloudExchange {
    modes: Vec<AuthMode>,
    round: usize,
    mode_index: usize,
    include_temperature: bool,
    include_top_p: bool,
    last_error: String,
}

impl View for CloudExchange {
    type V = ExchangeState;

    closed spec fn view(&self) -> ExchangeState {
        ExchangeState {
            modes: self.modes@,
            round: self.round as nat,
            mode_index: self.mode_index as nat,
            include_temperature: self.include_temperature,
            include_top_p: self.include_top_p,
            last_error: self.last_error@,
        }
    }
}

impl CloudExchange {
    /// A consistent exchange.
    pub closed spec fn wf(&self) -> bool {
        exchange_wf(self@)
    }

    /// An exchange that tries `modes` in each round, with both sampling
    /// parameters and no failure yet; with no modes there is nothing to try.
    pub fn new(modes: Vec<AuthMode>) -> (r: CloudExchange)
        ensures
            r.wf(),
            r@.modes == modes@,
            r@.round == (if modes@.len() == 0 {
                CLOUD_ROUNDS as nat
            } else {
                0
            }),
            r@.mode_index == 0,
            r@.include_temperature,
            r@.include_top_p,
            r@.last_error.len() == 0,
            attempts_left(r@) == CLOUD_ROUNDS * modes@.len(),
    {
        let round = if modes.len() == 0 {
            CLOUD_ROUNDS
        } else {
            0
        };
        CloudExchange {
            modes,
            round,
            mode_index: 0,
            include_temperature: true,
            include_top_p: true,
            last_error: String::new(),
        }
    }

    /// The next request to send, or the failure to report once no attempt
    /// is left.
    pub fn next_request(&self) -> (r: Result<CloudRequest, ProviderError>)
        requires
            self.wf(),
        ensures
            self@.round < CLOUD_ROUNDS ==> r == Ok::<CloudRequest, ProviderError>(
                CloudRequest {
                    auth: self@.modes[self@.mode_index as int],
                    include_temperature: self@.include_temperature,
                    include_top_p: self@.include_top_p,
                },
            ),
            self@.round >= CLOUD_ROUNDS ==> (r matches Err(ProviderError::CloudFailed { last_error })
                && last_error@ == self@.last_error),
            r is Ok <==> attempts_left(self@) > 0,
    {
        proof {
            if self@.round < CLOUD_ROUNDS {
                assert((CLOUD_ROUNDS - self@.round) * self@.modes.len() >= self@.modes.len())
                    by (nonlinear_arith)
                    requires
                        CLOUD_ROUNDS - self@.round >= 1,
                ;
            }
        }
        if self.round >= CLOUD_ROUNDS {
            return Err(ProviderError::CloudFailed { last_error: self.last_error.clone() });
        }
        Ok(
            CloudRequest {
                auth: self.modes[self.mode_index],
                include_temperature: self.include_temperature,
                include_top_p: self.include_top_p,
            },
        )
    }

    /// Takes in the failure of the request `next_request` gave: HTTP status
    /// `status` (shown as `status_text`) with the body `body`.
    pub fn record_failure(&mut self, status: u16, status_text: &str, body: &str)
        requires
            old(self).wf(),
            old(self)@.round < CLOUD_ROUNDS,
        ensures
            final(self).wf(),
            final(self)@.modes == old(self)@.modes,
            final(self)@.last_error == attempt_error(
                old(self)@.modes[old(self)@.mode_index as int],
                status_text@,
                body@,
            ),
            ({
                let o = old(self)@;
                let n = final(self)@;
                let outcome = if status == 400 {
                    unsupported_param_outcome(body@, o.include_temperature, o.include_top_p)
                } else {
                    (o.include_temperature, o.include_top_p, false)
                };
                let next_mode = !outcome.2 && (status == 401 || status == 403) && o.mode_index + 1
                    < o.modes.len();
                &&& n.include_temperature == outcome.0
                &&& n.include_top_p == outcome.1
                &&& next_mode ==> n.round == o.round && n.mode_index == o.mode_index + 1
                &&& !next_mode ==> n.round == o.round + 1 && n.mode_index == 0
            }),
            attempts_left(final(self)@) < attempts_left(old(self)@),
            final(self)@.include_temperature ==> old(self)@.include_temperature,
            final(self)@.include_top_p ==> old(self)@.include_top_p,
    {
        assert(self.mode_index < self.modes.len());
        let mode = self.modes[self.mode_index];
        let mut error = String::from_str("auth=");
        error.append(mode.name());
        error.append(" -> HTTP ");
        error.append(status_text);
        error.append(": ");
        error.append(body);
        self.last_error = error;
        let mut include_temperature = self.include_temperature;
        let mut include_top_p = self.include_top_p;
        let dropped = status == 400 && handle_unsupported_parameter_error(
            body,
            &mut include_temperature,
            &mut include_top_p,
        );
        self.include_temperature = include_temperature;
        self.include_top_p = include_top_p;
        let ghost o = old(self)@;
        if !dropped && (status == 401 || status == 403) && self.mode_index + 1 < self.modes.len() {
            self.mode_index = self.mode_index + 1;
        } else {
            proof {
                assert((CLOUD_ROUNDS - o.round) * o.modes.len() == (CLOUD_ROUNDS - (o.round + 1))
                    * o.modes.len() + o.modes.len()) by (nonlinear_arith);
            }
            self.round = self.round + 1;
            self.mode_index = 0;
        }
    }
}

/// Each kept line is not empty, holds no line feed, and neither starts nor
/// ends with white space.
pub proof fn lemma_kept_lines_shape(ls: Seq<Seq<char>>)
    requires
        forall|i: int| 0 <= i < ls.len() ==> lacks(#[trigger] ls[i], '\n'),
    ensures
        forall|i: int|
            0 <= i < kept_lines(ls).len() ==> {
                &&& (#[trigger] kept_lines(ls)[i]).len() > 0
                &&& lacks(kept_lines(ls)[i], '\n')
                &&& !is_ws(kept_lines(ls)[i][0])
                &&& !is_ws(kept_lines(ls)[i].last())
            },
    decreases ls.len(),
{
    if ls.len() > 0 {
        let init = ls.drop_last();
        assert forall|i: int| 0 <= i < init.len() implies lacks(#[trigger] init[i], '\n') by {
            assert(init[i] == ls[i]);
        }
        lemma_kept_lines_shape(init);
        let prev = kept_lines(init);
        let last = ls.last();
        assert(lacks(ls[ls.len() - 1], '\n'));
        let t = trim(last);
        lemma_trim(last, '\n');
        let s0 = remove_all(t, "<|im_start|>"@);
        let s1 = remove_all(s0, "<|im_end|>"@);
        let s2 = remove_all(s1, "<|end|>"@);
        let s3 = remove_all(s2, "_end|>"@);
        if t.len() > 0 {
            lemma_remove_all_lacks(t, "<|im_start|>"@, '\n');
            lemma_remove_all_lacks(s0, "<|im_end|>"@, '\n');
            lemma_remove_all_lacks(s1, "<|end|>"@, '\n');
            lemma_remove_all_lacks(s2, "_end|>"@, '\n');
            assert(s3 == strip_markers(t));
            lemma_trim(s3, '\n');
        }
        assert forall|i: int|
            0 <= i < kept_lines(ls).len() implies {
            &&& (#[trigger] kept_lines(ls)[i]).len() > 0
            &&& lacks(kept_lines(ls)[i], '\n')
            &&& !is_ws(kept_lines(ls)[i][0])
            &&& !is_ws(kept_lines(ls)[i].last())
        } by {
            if i < prev.len() {
                assert(kept_lines(ls)[i] == prev[i]);
            }
        }
    }
}

/// Lines none of which is blank pass the blank filter unchanged.
proof fn lemma_nonblank_all(ls: Seq<Seq<char>>)
    requires
        forall|i: int| 0 <= i < ls.len() ==> trim(#[trigger] ls[i]).len() > 0,
    ensures
        nonblank(ls) == ls,
    decreases ls.len(),
{
    if ls.len() > 0 {
        let init = ls.drop_last();
        assert forall|i: int| 0 <= i < init.len() implies trim(#[trigger] init[i]).len() > 0 by {
            assert(init[i] == ls[i]);
        }
        lemma_nonblank_all(init);
        assert(trim(ls[ls.len() - 1]).len() > 0);
        assert(init.push(ls.last()) =~= ls);
    }
}

/// A provider answers with the kept lines of the model's text, or with its
/// notice where no line is kept.
pub proof fn lemma_reply_is_kept_lines(text: Seq<char>, kind: ProviderKind)
    ensures
        reply(text, kind) == (if kept_lines(lines(text)).len() == 0 {
            seq![empty_reply(kind)]
        } else {
            kept_lines(lines(text))
        }),
{
    let ls = lines(text);
    let k = kept_lines(ls);
    lemma_lines_lack_newline(text);
    lemma_kept_lines_shape(ls);
    assert forall|i: int|
        0 <= i < k.len() implies (#[trigger] k[i]).len() > 0 && lacks(k[i], '\n') && k[i].last()
        != '\r' by {
        assert(!is_ws(k[i].last()));
    }
    lemma_lines_of_join(k);
    let s = sanitize(text);
    assert(s == join(k, "\n"@));
    if k.len() == 0 {
        assert(s.len() == 0);
        assert(trim(s).len() == 0);
    } else {
        assert forall|i: int| 0 <= i < k.len() implies trim(#[trigger] k[i]).len() > 0 by {
            lemma_trim(k[i], '\n');
        }
        lemma_nonblank_all(k);
        if k.len() == 1 {
            assert(s == k[0]);
        } else {
            lemma_join_front_items(k, "\n"@);
            assert(s[0] == k[0][0]);
        }
        assert(s[0] == k[0][0]);
        lemma_trim(s, '\n');
    }
}

/// Cleaned model output is empty, or each of its lines, split on line
/// feeds, is not empty and neither starts nor ends with white space.
pub proof fn lemma_sanitized_shape(raw: Seq<char>)
    ensures
        sanitize(raw).len() == 0 || forall|i: int|
            0 <= i < split_on(sanitize(raw), '\n').len() ==> {
                let piece = #[trigger] split_on(sanitize(raw), '\n')[i];
                piece.len() > 0 && !is_ws(piece[0]) && !is_ws(piece.last())
            },
{
    let ls = lines(raw);
    let k = kept_lines(ls);
    lemma_lines_lack_newline(raw);
    lemma_kept_lines_shape(ls);
    if k.len() > 0 {
        lemma_split_of_join(k);
    } else {
        assert(sanitize(raw).len() == 0);
    }
}

/// The trimmed lines of `ls` that are not empty.
pub open spec fn trimmed_lines(ls: Seq<Seq<char>>) -> Seq<Seq<char>>
    decreases ls.len(),
{
    if ls.len() == 0 {
        seq![]
    } else if trim(ls.last()).len() == 0 {
        trimmed_lines(ls.drop_last())
    } else {
        trimmed_lines(ls.drop_last()).push(trim(ls.last()))
    }
}

/// The text holds none of the chat-template markers.
pub open spec fn marker_free(s: Seq<char>) -> bool {
    &&& !contains(s, "<|im_start|>"@)
    &&& !contains(s, "<|im_end|>"@)
    &&& !contains(s, "<|end|>"@)
    &&& !contains(s, "_end|>"@)
}

proof fn lemma_strip_markers_absent(t: Seq<char>)
    requires
        marker_free(t),
    ensures
        strip_markers(t) == t,
{
    lemma_remove_absent(t, "<|im_start|>"@);
    lemma_remove_absent(t, "<|im_end|>"@);
    lemma_remove_absent(t, "<|end|>"@);
    lemma_remove_absent(t, "_end|>"@);
}

proof fn lemma_trim_marker_free(s: Seq<char>)
    requires
        marker_free(s),
    ensures
        marker_free(trim(s)),
{
    lemma_trim_lacks_pattern(s, "<|im_start|>"@);
    lemma_trim_lacks_pattern(s, "<|im_end|>"@);
    lemma_trim_lacks_pattern(s, "<|end|>"@);
    lemma_trim_lacks_pattern(s, "_end|>"@);
}

/// Without markers, the kept lines are the trimmed lines that are not
/// empty, and they hold no marker.
proof fn lemma_kept_marker_free(ls: Seq<Seq<char>>)
    requires
        forall|i: int| 0 <= i < ls.len() ==> marker_free(#[trigger] ls[i]),
    ensures
        kept_lines(ls) == trimmed_lines(ls),
        forall|i: int| 0 <= i < kept_lines(ls).len() ==> marker_free(#[trigger] kept_lines(ls)[i]),
    decreases ls.len(),
{
    if ls.len() > 0 {
        let init = ls.drop_last();
        assert forall|i: int| 0 <= i < init.len() implies marker_free(#[trigger] init[i]) by {
            assert(init[i] == ls[i]);
        }
        lemma_kept_marker_free(init);
        let l = ls.last();
        assert(marker_free(ls[ls.len() - 1]));
        let t = trim(l);
        lemma_trim_marker_free(l);
        lemma_strip_markers_absent(t);
        lemma_trim_idempotent(l);
        let prev = kept_lines(init);
        assert forall|i: int| 0 <= i < kept_lines(ls).len() implies marker_free(
            #[trigger] kept_lines(ls)[i],
        ) by {
            if i < prev.len() {
                assert(kept_lines(ls)[i] == prev[i]);
            }
        }
    }
}

/// Lines that are their own trimmed form and not empty are their own
/// trimmed lines.
proof fn lemma_trimmed_lines_fixed(ls: Seq<Seq<char>>)
    requires
        forall|i: int| 0 <= i < ls.len() ==> trim(#[trigger] ls[i]) == ls[i] && ls[i].len() > 0,
    ensures
        trimmed_lines(ls) == ls,
    decreases ls.len(),
{
    if ls.len() > 0 {
        let init = ls.drop_last();
        assert forall|i: int| 0 <= i < init.len() implies trim(#[trigger] init[i]) == init[i]
            && init[i].len() > 0 by {
            assert(init[i] == ls[i]);
        }
        lemma_trimmed_lines_fixed(init);
        assert(trim(ls[ls.len() - 1]) == ls.last());
        assert(init.push(ls.last()) =~= ls);
    }
}

/// Output without chat-template markers is cleaned by trimming its lines
/// and dropping the empty ones; cleaning it again changes nothing.
pub proof fn lemma_sanitize_marker_free(raw: Seq<char>)
    requires
        marker_free(raw),
    ensures
        sanitize(raw) == join(trimmed_lines(lines(raw)), "\n"@),
        sanitize(sanitize(raw)) == sanitize(raw),
{
    let ls = lines(raw);
    lemma_lines_lack_pattern(raw, "<|im_start|>"@);
    lemma_lines_lack_pattern(raw, "<|im_end|>"@);
    lemma_lines_lack_pattern(raw, "<|end|>"@);
    lemma_lines_lack_pattern(raw, "_end|>"@);
    assert forall|i: int| 0 <= i < ls.len() implies marker_free(#[trigger] ls[i]) by {}
    lemma_kept_marker_free(ls);
    let k = kept_lines(ls);
    let r = sanitize(raw);
    lemma_lines_lack_newline(raw);
    lemma_kept_lines_shape(ls);
    assert forall|i: int|
        0 <= i < k.len() implies (#[trigger] k[i]).len() > 0 && lacks(k[i], '\n') && k[i].last()
        != '\r' by {
        assert(!is_ws(k[i].last()));
    }
    lemma_lines_of_join(k);
    assert(lines(r) == k);
    assert forall|i: int| 0 <= i < k.len() implies trim(#[trigger] k[i]) == k[i] && k[i].len()
        > 0 by {
        assert(k == trimmed_lines(ls));
        lemma_trim(k[i], '\n');
        assert(trim_start(k[i]) == k[i]);
        assert(trim_end(k[i]) == k[i]);
    }
    lemma_kept_marker_free(k);
    lemma_trimmed_lines_fixed(k);
}

/// A cloud endpoint, trimmed of white space and of trailing `/`, is used as
/// it is where it holds a query (`?`), an Azure OpenAI path (`/openai/`) or
/// a versioned API path (`/v1/`); any other endpoint gets
/// `/v1/chat/completions` appended.
pub proof fn lemma_cloud_request_url(cloud_url: Seq<char>)
    ensures
        ({
            let t = trim_end_char(trim(cloud_url), '/');
            let kept = t.contains('?') || contains(t, "/openai/"@) || contains(t, "/v1/"@);
            &&& kept ==> cloud_request_url(cloud_url) == t
            &&& !kept ==> cloud_request_url(cloud_url) == t + "/v1/chat/completions"@
        }),
{
    let t = trim_end_char(trim(cloud_url), '/');
    reveal_strlit("?");
    if t.contains('?') {
        let i = choose|i: int| 0 <= i < t.len() && t[i] == '?';
        assert(t.subrange(i, i + 1) =~= "?"@);
        assert(crate::text::occurs_at(t, "?"@, i));
    }
    if contains(t, "?"@) {
        let i = choose|i: int| crate::text::occurs_at(t, "?"@, i);
        assert(t.subrange(i, i + 1)[0] == t[i]);
        assert(t.contains('?'));
    }
}

/// A request URL is one of the Responses API exactly when it holds
/// `/responses` (Azure's `/openai/responses` among them).
pub proof fn lemma_responses_urls(url: Seq<char>)
    ensures
        is_responses(url) <==> contains(url, "/responses"@),
{
    reveal_strlit("/responses");
    reveal_strlit("/openai/responses");
    if contains(url, "/openai/responses"@) {
        let i = choose|i: int| crate::text::occurs_at(url, "/openai/responses"@, i);
        assert(url.subrange(i + 7, i + 17) =~= url.subrange(i, i + 17).subrange(7, 17));
        assert("/openai/responses"@.subrange(7, 17) =~= "/responses"@);
        assert(crate::text::occurs_at(url, "/responses"@, i + 7));
    }
}

/// For a Responses URL a payload's `output_text` is the reply; for any other
/// URL the reply is the first choice's content, or nothing.
pub proof fn lemma_reply_text_by_url(payload: CloudPayload, url: Seq<char>)
    ensures
        contains(url, "/responses"@) && payload.output_text is Some ==> extracted_text(payload, url)
            == payload.output_text->0@,
        !contains(url, "/responses"@) ==> extracted_text(payload, url) == match payload.first_choice_content {
            Some(c) => c@,
            None => seq![],
        },
{
    lemma_responses_urls(url);
}

} // verus!
