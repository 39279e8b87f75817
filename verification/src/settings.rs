//! Application settings: per-workflow node overrides and the state of the
//! API key check.
use vstd::prelude::*;
use crate::keyed::TextMap;
use crate::text::{
    blank, contains_text, is_blank, law_redacted_hides_key, lemma_trim_idempotent, owned, push_str,
    redact, redacted, trim, trim_str,
};

verus! {

broadcast use vstd::string::group_string_axioms;

/// The node field that receives the uploaded video for one workflow, as the
/// user configured it.
#[derive(Debug, Clone, PartialEq, Eq)]
pub struct ModelOverride {
    pub node_id: String,
    pub field_name: String,
}

impl ModelOverride {
    /// A copy of the override.
    pub fn copy(&self) -> (r: ModelOverride)
        ensures
            r == *self,
    {
        ModelOverride { node_id: self.node_id.clone(), field_name: self.field_name.clone() }
    }
}

/// An error of the settings store, with the text of its cause.
#[derive(Debug, Clone, PartialEq, Eq)]
pub enum SettingsError {
    Io(String),
    Json(String),
    Keyring(String),
}

/// The text that a settings error shows.
pub open spec fn settings_error_text(e: SettingsError) -> Seq<char> {
    match e {
        SettingsError::Io(m) => "设置文件读写失败："@ + m@,
        SettingsError::Json(m) => "设置文件格式错误："@ + m@,
        SettingsError::Keyring(m) => "系统凭据访问失败："@ + m@,
    }
}

impl SettingsError {
    /// The text that the error shows.
    pub fn message(&self) -> (r: String)
        ensures
            r@ == settings_error_text(*self),
    {
        let (head, cause) = match self {
            SettingsError::Io(m) => ("设置文件读写失败：", m),
            SettingsError::Json(m) => ("设置文件格式错误：", m),
            SettingsError::Keyring(m) => ("系统凭据访问失败：", m),
        };
        let mut s = owned(head);
        push_str(&mut s, cause.as_str());
        s
    }
}

/// The settings of the application.
pub struct AppSettings {
    pub model_overrides: TextMap<ModelOverride>,
    pub api_key_verified_at: Option<String>,
    pub api_key_last_error: Option<String>,
}

/// Whether an override names both a node and a field.
pub open spec fn override_complete(c: ModelOverride) -> bool {
    !is_blank(c.node_id@) && !is_blank(c.field_name@)
}

/// The overrides `new` are `old` after saving `o` for workflow `app`: the
/// other workflows keep theirs; `app` gets `o` trimmed when it is complete,
/// and loses its override otherwise.
pub open spec fn override_saved(
    old: Map<Seq<char>, ModelOverride>,
    new: Map<Seq<char>, ModelOverride>,
    app: Seq<char>,
    o: Option<ModelOverride>,
) -> bool {
    &&& new.remove(app) == old.remove(app)
    &&& match o {
        Some(c) if override_complete(c) => {
            &&& new.contains_key(app)
            &&& new[app].node_id@ == trim(c.node_id@)
            &&& new[app].field_name@ == trim(c.field_name@)
        },
        _ => !new.contains_key(app),
    }
}

impl AppSettings {
    /// Settings with no overrides and no record of a key check.
    pub fn new() -> (r: AppSettings)
        ensures
            r.model_overrides@ == Map::<Seq<char>, ModelOverride>::empty(),
            r.api_key_verified_at is None,
            r.api_key_last_error is None,
    {
        AppSettings { model_overrides: TextMap::new(), api_key_verified_at: None, api_key_last_error: None }
    }

    /// Saves the override of workflow `app_id` with its texts trimmed, or
    /// removes it when none is given or it leaves the node or the field blank.
    pub fn save_model_override(&mut self, app_id: String, override_config: Option<ModelOverride>)
        ensures
            override_saved(
                old(self).model_overrides@,
                final(self).model_overrides@,
                app_id@,
                override_config,
            ),
            final(self).api_key_verified_at == old(self).api_key_verified_at,
            final(self).api_key_last_error == old(self).api_key_last_error,
    {
        let ghost k = app_id@;
        let ghost before = self.model_overrides@;
        match override_config {
            Some(config) => {
                if !blank(config.node_id.as_str()) && !blank(config.field_name.as_str()) {
                    let trimmed = ModelOverride {
                        node_id: trim_str(config.node_id.as_str()),
                        field_name: trim_str(config.field_name.as_str()),
                    };
                    self.model_overrides.insert(app_id, trimmed);
                    assert(self.model_overrides@.remove(k) =~= before.remove(k));
                } else {
                    self.model_overrides.remove(app_id.as_str());
                    assert(self.model_overrides@.remove(k) =~= before.remove(k));
                }
            },
            None => {
                self.model_overrides.remove(app_id.as_str());
                assert(self.model_overrides@.remove(k) =~= before.remove(k));
            },
        }
    }

    /// The override of workflow `app_id`.
    pub fn model_override(&self, app_id: &str) -> (r: Option<ModelOverride>)
        ensures
            match r {
                Some(c) => self.model_overrides@.contains_key(app_id@) && c == self.model_overrides@[app_id@],
                None => !self.model_overrides@.contains_key(app_id@),
            },
    {
        match self.model_overrides.get(app_id) {
            Some(c) => Some(c.copy()),
            None => None,
        }
    }

    /// Records that the key was verified at `verified_at`; the last error is
    /// cleared.
    pub fn mark_api_key_verified(&mut self, verified_at: String)
        ensures
            final(self).api_key_verified_at == Some(verified_at),
            final(self).api_key_last_error is None,
            final(self).model_overrides@ == old(self).model_overrides@,
    {
        self.api_key_verified_at = Some(verified_at);
        self.api_key_last_error = None;
    }

    /// Records the error of the last key check.
    pub fn mark_api_key_error(&mut self, error: String)
        ensures
            final(self).api_key_last_error == Some(error),
            final(self).api_key_verified_at == old(self).api_key_verified_at,
            final(self).model_overrides@ == old(self).model_overrides@,
    {
        self.api_key_last_error = Some(error);
    }

    /// Forgets every record of a key check.
    pub fn clear_api_key_state(&mut self)
        ensures
            final(self).api_key_verified_at is None,
            final(self).api_key_last_error is None,
            final(self).model_overrides@ == old(self).model_overrides@,
    {
        self.api_key_verified_at = None;
        self.api_key_last_error = None;
    }
}

impl Default for AppSettings {
    fn default() -> (r: AppSettings)
        ensures
            r.model_overrides@ == Map::<Seq<char>, ModelOverride>::empty(),
            r.api_key_verified_at is None,
            r.api_key_last_error is None,
    {
        AppSettings::new()
    }
}

/// The settings with whether a key is stored.
pub struct SettingsSnapshot {
    pub has_api_key: bool,
    pub settings: AppSettings,
}

/// The key as it is stored: without surrounding white space.
pub fn normalize_api_key(api_key: &str) -> (r: String)
    ensures
        r@ == trim(api_key@),
{
    trim_str(api_key)
}

/// Whether a stored key counts as present: one is stored and it is not blank.
pub fn api_key_present(stored: Option<&str>) -> (r: bool)
    ensures
        r == match stored {
            Some(k) => !is_blank(k@),
            None => false,
        },
{
    match stored {
        Some(k) => !blank(k),
        None => false,
    }
}

/// The key to check with RunningHub: the given one trimmed, refused when it
/// is blank.
pub fn api_key_for_check(api_key: &str) -> (r: Result<String, String>)
    ensures
        is_blank(api_key@) ==> (r matches Err(m) && m@ == "API Key 不能为空。"@),
        !is_blank(api_key@) ==> (r matches Ok(k) && k@ == trim(api_key@)),
{
    if blank(api_key) {
        Err(owned("API Key 不能为空。"))
    } else {
        Ok(trim_str(api_key))
    }
}

/// The error shown when RunningHub refused a key, from the error's text.
pub fn key_check_failure(message: &str) -> (r: String)
    ensures
        r@ == "API Key 验证失败："@ + message@,
{
    let mut s = owned("API Key 验证失败：");
    push_str(&mut s, message);
    s
}

/// Records the outcome of checking the key `key` with RunningHub. A refused
/// key leaves the error in the settings, with the key hidden in it (an error
/// of a request may quote the request, key and all, and the settings are a
/// file), and yields the error to show as it came; an accepted one changes
/// nothing here (the key is stored and the time of the check recorded next).
pub fn record_key_check(settings: &mut AppSettings, outcome: Result<(), String>, key: &str) -> (r: Result<(), String>)
    ensures
        match outcome {
            Ok(()) => {
                &&& r is Ok
                &&& final(settings).api_key_last_error == old(settings).api_key_last_error
            },
            Err(m) => {
                &&& r matches Err(shown) && shown@ == "API Key 验证失败："@ + m@
                &&& final(settings).api_key_last_error matches Some(stored) && stored@ == redacted(m@, key@)
                &&& key@.len() > 0 ==> !contains_text(redacted(m@, key@), key@)
            },
        },
        final(settings).api_key_verified_at == old(settings).api_key_verified_at,
        final(settings).model_overrides@ == old(settings).model_overrides@,
{
    match outcome {
        Ok(()) => Ok(()),
        Err(m) => {
            let hidden = redact(m.as_str(), key);
            proof {
                law_redacted_hides_key(m@, key@);
            }
            let shown = key_check_failure(m.as_str());
            settings.mark_api_key_error(hidden);
            Err(shown)
        },
    }
}

// ---------------------------------------------------------------------------
// Laws
// ---------------------------------------------------------------------------

/// Removing the override of a workflow undoes saving one: the other
/// workflows keep theirs.
pub proof fn law_remove_undoes_save(
    m0: Map<Seq<char>, ModelOverride>,
    m1: Map<Seq<char>, ModelOverride>,
    m2: Map<Seq<char>, ModelOverride>,
    app: Seq<char>,
    o: Option<ModelOverride>,
)
    requires
        override_saved(m0, m1, app, o),
        override_saved(m1, m2, app, None),
    ensures
        m2 == m0.remove(app),
{
    assert(m2 =~= m2.remove(app));
}

/// Saving an override that was read back stores the same texts: saved
/// texts are already trimmed, and a saved override is complete.
pub proof fn law_saved_override_is_stable(
    m0: Map<Seq<char>, ModelOverride>,
    m1: Map<Seq<char>, ModelOverride>,
    m2: Map<Seq<char>, ModelOverride>,
    app: Seq<char>,
    c: ModelOverride,
)
    requires
        override_complete(c),
        override_saved(m0, m1, app, Some(c)),
        override_saved(m1, m2, app, Some(m1[app])),
    ensures
        m2.contains_key(app),
        m2[app].node_id@ == m1[app].node_id@,
        m2[app].field_name@ == m1[app].field_name@,
        m2.remove(app) == m1.remove(app),
{
    lemma_trim_idempotent(c.node_id@);
    lemma_trim_idempotent(c.field_name@);
}

/// A stored key is already trimmed: storing it again stores the same text.
pub proof fn law_stored_key_is_stable(k: Seq<char>)
    ensures
        trim(trim(k)) == trim(k),
{
    lemma_trim_idempotent(k);
}

} // verus!
