//! The desktop app's decisions: settings, the recent workspaces, the chat
//! answer and the setup report.
use vstd::prelude::*;
use vstd::string::StringExecFns;
use crate::paths::{join_path, join_paths};
use crate::text::{
    contains, decimal, decimal_string, is_blank, join, join_strings, lowercase,
    str_contains, str_equal, string_views, to_lowercase, trim, trim_str,
};

verus! {

/// The keyring service under which the cloud API key is kept.
pub fn keyring_service() -> (r: &'static str)
    ensures
        r@ == "codexu-desktop"@,
{
    "codexu-desktop"
}

/// What to do with the keyring entry of the cloud API key.
#[derive(Debug, Clone)]
pub enum KeyringUpdate {
    /// Keep this key.
    Store(String),
    /// Remove the entry.
    Delete,
}

/// A key that is set and not blank is stored as given; otherwise the entry
/// is removed.
pub fn keyring_update(value: Option<&str>) -> (r: KeyringUpdate)
    ensures
        match value {
            Some(v) => if trim(v@).len() > 0 {
                r matches KeyringUpdate::Store(k) && k@ == v@
            } else {
                r matches KeyringUpdate::Delete
            },
            None => r matches KeyringUpdate::Delete,
        },
{
    match value {
        Some(v) => if !is_blank(v) {
            KeyringUpdate::Store(String::from_str(v))
        } else {
            KeyringUpdate::Delete
        },
        None => KeyringUpdate::Delete,
    }
}

/// The chat history file of a workspace: `.codexu/history.json` in it.
pub fn history_file_for_workspace(workspace: &str) -> (r: String)
    ensures
        r@ == join_path(join_path(workspace@, ".codexu"@), "history.json"@),
{
    let dir = join_paths(workspace, ".codexu");
    join_paths(dir.as_str(), "history.json")
}

/// How many recent workspaces are remembered.
pub const RECENT_WORKSPACES_LIMIT: usize = 10;

/// `list` without the entries equal to `x`, in order.
pub open spec fn without(list: Seq<Seq<char>>, x: Seq<char>) -> Seq<Seq<char>>
    decreases list.len(),
{
    if list.len() == 0 {
        seq![]
    } else {
        let w = without(list.drop_last(), x);
        if list.last() == x {
            w
        } else {
            w.push(list.last())
        }
    }
}

/// The recent workspaces once `path` is opened: `path` first, then the
/// others in their order, at most ten in all.
pub open spec fn recent_after(list: Seq<Seq<char>>, path: Seq<char>) -> Seq<Seq<char>> {
    let full = seq![path] + without(list, path);
    if full.len() > RECENT_WORKSPACES_LIMIT {
        full.take(RECENT_WORKSPACES_LIMIT as int)
    } else {
        full
    }
}

proof fn lemma_without(list: Seq<Seq<char>>, x: Seq<char>)
    ensures
        forall|i: int| 0 <= i < without(list, x).len() ==> #[trigger] without(list, x)[i] != x,
    decreases list.len(),
{
    if list.len() > 0 {
        lemma_without(list.drop_last(), x);
        let w = without(list.drop_last(), x);
        assert forall|i: int| 0 <= i < without(list, x).len() implies #[trigger] without(list, x)[i]
            != x by {
            if i < w.len() {
                assert(without(list, x)[i] == w[i]);
            }
        }
    }
}

/// The test that keeps an entry other than `path`.
pub open spec fn differs_from(path: Seq<char>) -> spec_fn(Seq<char>) -> bool {
    |x: Seq<char>| x != path
}

proof fn lemma_without_is_filter(list: Seq<Seq<char>>, path: Seq<char>)
    ensures
        without(list, path) == list.filter(differs_from(path)),
    decreases list.len(),
{
    reveal(Seq::filter);
    if list.len() > 0 {
        lemma_without_is_filter(list.drop_last(), path);
    }
}

/// Opening `path` puts it first, then every other remembered workspace in
/// its earlier order, with the earlier copies of `path` gone; only the
/// first ten are kept, so an entry other than `path` is dropped only when
/// nine others come before it.
pub proof fn lemma_recent_workspaces(list: Seq<Seq<char>>, path: Seq<char>)
    ensures
        ({
            let others = list.filter(differs_from(path));
            let r = recent_after(list, path);
            &&& r.len() == if others.len() < 10 {
                others.len() + 1
            } else {
                10
            }
            &&& r[0] == path
            &&& forall|i: int| 1 <= i < r.len() ==> r[i] == #[trigger] others[i - 1]
        }),
{
    lemma_without_is_filter(list, path);
}

/// The recent workspaces once `path` is opened; `path` comes first and
/// once, and at most ten are kept.
pub fn update_recent_workspaces(list: Vec<String>, path: &str) -> (r: Vec<String>)
    ensures
        string_views(r@) == recent_after(string_views(list@), path@),
        r@.len() >= 1,
        r@.len() <= RECENT_WORKSPACES_LIMIT,
        r@[0]@ == path@,
        forall|i: int| 1 <= i < r@.len() ==> (#[trigger] r@[i])@ != path@,
{
    let ghost lv = string_views(list@);
    let mut r: Vec<String> = Vec::new();
    r.push(String::from_str(path));
    let mut i: usize = 0;
    assert(lv.take(0) =~= Seq::<Seq<char>>::empty());
    assert(string_views(r@) =~= seq![path@] + without(lv.take(0), path@));
    while i < list.len()
        invariant
            i <= list.len(),
            lv == string_views(list@),
            string_views(r@) == seq![path@] + without(lv.take(i as int), path@),
        decreases list.len() - i,
    {
        assert(lv.take(i + 1).drop_last() == lv.take(i as int));
        assert(lv.take(i + 1).last() == list@[i as int]@);
        if !str_equal(list[i].as_str(), path) {
            let ghost before = string_views(r@);
            let item = list[i].clone();
            r.push(item);
            assert(string_views(r@) =~= before.push(list@[i as int]@));
        }
        i += 1;
    }
    assert(lv.take(list.len() as int) == lv);
    let ghost full = string_views(r@);
    r.truncate(RECENT_WORKSPACES_LIMIT);
    assert(string_views(r@) =~= recent_after(lv, path@));
    proof {
        lemma_without(lv, path@);
        assert forall|i: int| 1 <= i < r@.len() implies (#[trigger] r@[i])@ != path@ by {
            assert(r@[i]@ == string_views(r@)[i]);
            assert(string_views(r@)[i] == without(lv, path@)[i - 1]);
        }
        assert(r@[0]@ == string_views(r@)[0]);
    }
    r
}

/// The workspace remembered in a file that reads `raw`: its trimmed text,
/// unless that is empty.
pub fn persisted_workspace(raw: &str) -> (r: Option<String>)
    ensures
        trim(raw@).len() == 0 ==> r is None,
        trim(raw@).len() > 0 ==> (r matches Some(w) && w@ == trim(raw@)),
{
    let t = trim_str(raw);
    if t.as_str().is_empty() {
        None
    } else {
        Some(t)
    }
}

/// The provider a setting names: `docker` or `cloud`, else `docker`.
pub open spec fn provider_name(setting: Seq<char>) -> Seq<char> {
    if setting != "docker"@ && setting != "cloud"@ {
        "docker"@
    } else {
        setting
    }
}

/// The provider to save for `setting`.
pub fn normalized_provider(setting: &str) -> (r: String)
    ensures
        r@ == provider_name(setting@),
        r@ == "docker"@ || r@ == "cloud"@,
{
    if !str_equal(setting, "docker") && !str_equal(setting, "cloud") {
        String::from_str("docker")
    } else {
        String::from_str(setting)
    }
}

/// The request timeout to save: at least 30 seconds.
pub fn normalized_timeout(secs: u64) -> (r: u64)
    ensures
        r == (if secs < 30 {
            30
        } else {
            secs
        }),
{
    if secs < 30 {
        30
    } else {
        secs
    }
}

/// The selected provider is the cloud one.
pub fn uses_cloud(provider: &str) -> (b: bool)
    ensures
        b == (provider@ == "cloud"@),
{
    str_equal(provider, "cloud")
}

/// A lowercased message names a bug, an error or a failure.
pub open spec fn names_failure(lower: Seq<char>) -> bool {
    contains(lower, "bug"@) || contains(lower, "erro"@) || contains(lower, "falha"@)
}

/// The message asks about a failure: its lowercase form names a bug, an
/// error or a failure.
pub open spec fn asks_about_failure(message: Seq<char>) -> bool {
    names_failure(lowercase(message))
}

/// The steps shown for a message whose lowercase form is `lower`: analyse,
/// then investigate and fix where it names a failure, else map files and
/// suggest a change; finally validate and sum up.
pub open spec fn plan_steps_for_lowered(lower: Seq<char>) -> Seq<Seq<char>> {
    if names_failure(lower) {
        seq![
            "Analisar objetivo do usuário"@,
            "Investigar causa raiz"@,
            "Propor correção"@,
            "Validar e resumir"@,
        ]
    } else {
        seq![
            "Analisar objetivo do usuário"@,
            "Mapear arquivos relevantes"@,
            "Gerar sugestão incremental"@,
            "Validar e resumir"@,
        ]
    }
}

/// The steps shown for a chat message.
pub open spec fn plan_steps_for(message: Seq<char>) -> Seq<Seq<char>> {
    plan_steps_for_lowered(lowercase(message))
}

/// The steps shown for a chat message whose lowercase form is `lower`.
pub fn plan_steps_for_lowercase(lower: &str) -> (r: Vec<String>)
    ensures
        string_views(r@) == plan_steps_for_lowered(lower@),
{
    let mut steps: Vec<String> = Vec::new();
    steps.push(String::from_str("Analisar objetivo do usuário"));
    if str_contains(lower, "bug") || str_contains(lower, "erro") || str_contains(lower, "falha") {
        steps.push(String::from_str("Investigar causa raiz"));
        steps.push(String::from_str("Propor correção"));
    } else {
        steps.push(String::from_str("Mapear arquivos relevantes"));
        steps.push(String::from_str("Gerar sugestão incremental"));
    }
    steps.push(String::from_str("Validar e resumir"));
    assert(string_views(steps@) =~= plan_steps_for_lowered(lower@));
    steps
}

/// The steps shown for the chat message `message`.
pub fn derive_plan_steps(message: &str) -> (r: Vec<String>)
    ensures
        string_views(r@) == plan_steps_for(message@),
{
    let lower = to_lowercase(message);
    plan_steps_for_lowercase(lower.as_str())
}

/// How many chat history entries a workspace keeps.
pub const HISTORY_LIMIT: usize = 300;

/// The last `max` of `entries`, or all of them where there are no more.
pub fn keep_latest_entries<T>(entries: Vec<T>, max: usize) -> (r: Vec<T>)
    ensures
        entries@.len() > max ==> r@ == entries@.subrange(
            entries@.len() - max,
            entries@.len() as int,
        ),
        entries@.len() <= max ==> r@ == entries@,
{
    if entries.len() > max {
        let mut all = entries;
        let at = all.len() - max;
        all.split_off(at)
    } else {
        entries
    }
}

/// The seconds since the epoch as the history records them: in decimal,
/// 0 where the clock reads before the epoch (`None`).
pub fn chrono_like_now(secs_since_epoch: Option<u64>) -> (r: String)
    ensures
        r@ == decimal(
            match secs_since_epoch {
                Some(s) => s as nat,
                None => 0,
            },
        ),
{
    let secs = match secs_since_epoch {
        Some(s) => s,
        None => 0,
    };
    decimal_string(secs)
}

/// What the chat answers.
#[derive(Debug, Clone)]
pub struct ChatResponse {
    pub assistant_message: String,
    pub plan_steps: Vec<String>,
    pub diff_text: Option<String>,
}

/// The answer to a message sent before any workspace is selected.
pub fn no_workspace_response() -> (r: ChatResponse)
    ensures
        r.assistant_message@ == "Selecione um workspace antes de enviar mensagens."@,
        string_views(r.plan_steps@) == seq![
            "Selecionar workspace"@,
            "Reenviar mensagem"@,
            "Executar plano"@,
        ],
        r.diff_text is None,
{
    let mut steps: Vec<String> = Vec::new();
    steps.push(String::from_str("Selecionar workspace"));
    steps.push(String::from_str("Reenviar mensagem"));
    steps.push(String::from_str("Executar plano"));
    let r = ChatResponse {
        assistant_message: String::from_str("Selecione um workspace antes de enviar mensagens."),
        plan_steps: steps,
        diff_text: None,
    };
    assert(string_views(r.plan_steps@) =~= seq![
        "Selecionar workspace"@,
        "Reenviar mensagem"@,
        "Executar plano"@,
    ]);
    r
}

/// The answer to a message: the provider's lines one per line, or, where
/// it failed with the description `outcome`'s error, a notice naming the
/// provider and the failure.
pub fn chat_response(provider: &str, plan_steps: Vec<String>, outcome: Result<Vec<String>, String>) -> (r:
    ChatResponse)
    ensures
        r.plan_steps@ == plan_steps@,
        r.diff_text is None,
        match outcome {
            Ok(chunks) => r.assistant_message@ == join(string_views(chunks@), "\n"@),
            Err(e) => r.assistant_message@ == "Falha no provider "@ + provider@ + ": "@ + e@
                + ". Verifique configurações em Settings."@,
        },
{
    let message = match outcome {
        Ok(chunks) => join_strings(chunks.as_slice(), "\n"),
        Err(e) => {
            let mut m = String::from_str("Falha no provider ");
            m.append(provider);
            m.append(": ");
            m.append(e.as_str());
            m.append(". Verifique configurações em Settings.");
            m
        },
    };
    ChatResponse { assistant_message: message, plan_steps, diff_text: None }
}

/// The report on the provider setup.
#[derive(Debug, Clone)]
pub struct SetupStatus {
    pub ok: bool,
    pub provider: String,
    pub model: String,
    pub endpoint: String,
    pub details: Vec<String>,
}

/// The report on the setup of `provider` with `model`, given the outcome of
/// checking it (the failure's description where it failed): the cloud
/// provider where `provider` is `cloud`, the Docker one otherwise.
pub fn setup_status(
    provider: &str,
    model: &str,
    docker_endpoint: &str,
    cloud_endpoint: &str,
    check: Result<(), String>,
) -> (r: SetupStatus)
    ensures
        r.ok == (check is Ok),
        r.model@ == model@,
        r.details@.len() == 2,
        r.details@[0]@ == "provider ativo: "@ + provider@ + " | modelo: "@ + model@,
        provider@ == "cloud"@ ==> r.provider@ == "cloud"@ && r.endpoint@ == cloud_endpoint@ && match check {
            Ok(_) => r.details@[1]@ == "cloud config válido"@,
            Err(e) => r.details@[1]@ == "erro cloud: "@ + e@,
        },
        provider@ != "cloud"@ ==> r.provider@ == "docker"@ && r.endpoint@ == docker_endpoint@ && match check {
            Ok(_) => r.details@[1]@ == "endpoint docker acessível"@,
            Err(e) => r.details@[1]@ == "erro endpoint: "@ + e@,
        },
{
    let mut head = String::from_str("provider ativo: ");
    head.append(provider);
    head.append(" | modelo: ");
    head.append(model);
    let mut details: Vec<String> = Vec::new();
    details.push(head);
    let ok = check.is_ok();
    if uses_cloud(provider) {
        let line = match check {
            Ok(()) => String::from_str("cloud config válido"),
            Err(e) => String::from_str("erro cloud: ").concat(e.as_str()),
        };
        details.push(line);
        SetupStatus {
            ok,
            provider: String::from_str("cloud"),
            model: String::from_str(model),
            endpoint: String::from_str(cloud_endpoint),
            details,
        }
    } else {
        let line = match check {
            Ok(()) => String::from_str("endpoint docker acessível"),
            Err(e) => String::from_str("erro endpoint: ").concat(e.as_str()),
        };
        details.push(line);
        SetupStatus {
            ok,
            provider: String::from_str("docker"),
            model: String::from_str(model),
            endpoint: String::from_str(docker_endpoint),
            details,
        }
    }
}

/// What the app reports of itself.
#[derive(Debug, Clone)]
pub struct AppMode {
    pub runtime: String,
    pub version: String,
    pub milestone: String,
}

/// The app's report for the package version `version`.
pub fn app_mode(version: String) -> (r: AppMode)
    ensures
        r.runtime@ == "tauri"@,
        r.version@ == version@,
        r.milestone@ == "M5"@,
{
    AppMode { runtime: String::from_str("tauri"), version, milestone: String::from_str("M5") }
}

} // verus!
