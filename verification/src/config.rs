//! Configuration data.
//!
//! The recognized options: a notification threshold with a whitelist of
//! command substrings, presentation templates, aggregation parameters and
//! logging settings.  Loading and saving the configuration file is the
//! surrounding application's business; the library only works on the
//! values.  Custom templates are kept as an ordered list of
//! `(name, template)` pairs so that template matching is deterministic.

use vstd::prelude::*;

verus! {

/// How notification sounds interact with the system's focus assistant.
#[derive(Debug, Clone, Copy, PartialEq, Eq, Structural)]
pub enum FocusAssistantMode {
    Respect,
    Always,
    Never,
}

/// Threshold filtering: events shorter than `min_duration` seconds are
/// suppressed unless whitelisted or errored.
#[derive(Debug, Clone)]
pub struct ThresholdConfig {
    pub min_duration: u64,
    pub whitelist: Vec<String>,
}

/// Presentation parameters of one named template.
#[derive(Debug, Clone)]
pub struct TemplateConfig {
    pub icon: String,
    pub sound: String,
    pub duration: u64,
}

/// The default template plus the ordered list of custom templates.
#[derive(Debug, Clone)]
pub struct TemplatesConfig {
    pub default: TemplateConfig,
    pub custom: Vec<(String, TemplateConfig)>,
}

/// Batching parameters: window lifetime in milliseconds and the entry
/// count that forces an immediate flush.
#[derive(Debug, Clone)]
pub struct AggregationConfig {
    pub enabled: bool,
    pub window: u64,
    pub max_toasts: usize,
}

/// Logging settings.
#[derive(Debug, Clone)]
pub struct LoggingConfig {
    pub level: String,
    pub file: Option<String>,
}

/// The whole configuration.
#[derive(Debug, Clone)]
pub struct Config {
    pub version: String,
    pub sound_enabled: bool,
    pub focus_assistant_mode: FocusAssistantMode,
    pub threshold: ThresholdConfig,
    pub templates: TemplatesConfig,
    pub aggregation: AggregationConfig,
    pub logging: LoggingConfig,
}

/// The built-in default configuration.
pub open spec fn is_default_config(c: Config) -> bool {
    &&& c.version@ == "1.0"@
    &&& c.sound_enabled == true
    &&& c.focus_assistant_mode == FocusAssistantMode::Respect
    &&& c.threshold.min_duration == 10
    &&& c.threshold.whitelist@ == Seq::<String>::empty()
    &&& c.templates.default.icon@ == "auto"@
    &&& c.templates.default.sound@ == "default"@
    &&& c.templates.default.duration == 5000
    &&& c.templates.custom@ == Seq::<(String, TemplateConfig)>::empty()
    &&& c.aggregation.enabled == true
    &&& c.aggregation.window == 5000
    &&& c.aggregation.max_toasts == 3
    &&& c.logging.level@ == "info"@
    &&& c.logging.file is None
}

impl Default for Config {
    /// The configuration used when no configuration file exists yet.
    fn default() -> (c: Config)
        ensures
            is_default_config(c),
    {
        Config {
            version: String::from_str("1.0"),
            sound_enabled: true,
            focus_assistant_mode: FocusAssistantMode::Respect,
            threshold: ThresholdConfig { min_duration: 10, whitelist: Vec::new() },
            templates: TemplatesConfig {
                default: TemplateConfig {
                    icon: String::from_str("auto"),
                    sound: String::from_str("default"),
                    duration: 5000,
                },
                custom: Vec::new(),
            },
            aggregation: AggregationConfig { enabled: true, window: 5000, max_toasts: 3 },
            logging: LoggingConfig { level: String::from_str("info"), file: None },
        }
    }
}

/// The first custom template whose name is exactly `name`, if any.
pub open spec fn find_custom(c: Seq<(String, TemplateConfig)>, name: Seq<char>) -> Option<
    TemplateConfig,
>
    decreases c.len(),
{
    if c.len() == 0 {
        None
    } else if c[0].0@ == name {
        Some(c[0].1)
    } else {
        find_custom(c.drop_first(), name)
    }
}

/// The display duration that a template name selects: the custom template
/// of that name if one exists and the name is not `"default"`, else the
/// default template's duration.
pub open spec fn spec_template_duration(c: Config, name: Seq<char>) -> u64 {
    if name == "default"@ {
        c.templates.default.duration
    } else {
        match find_custom(c.templates.custom@, name) {
            Some(t) => t.duration,
            None => c.templates.default.duration,
        }
    }
}

/// The notification sound that a template name selects, by the same rule.
pub open spec fn spec_template_sound(c: Config, name: Seq<char>) -> Seq<char> {
    if name == "default"@ {
        c.templates.default.sound@
    } else {
        match find_custom(c.templates.custom@, name) {
            Some(t) => t.sound@,
            None => c.templates.default.sound@,
        }
    }
}

impl Config {
    /// Looks up the first custom template named exactly `name`.
    fn find_custom_template(&self, name: &str) -> (r: Option<&TemplateConfig>)
        ensures
            match find_custom(self.templates.custom@, name@) {
                Some(t) => r is Some && *r->0 == t,
                None => r is None,
            },
    {
        let n = self.templates.custom.len();
        let mut i: usize = 0;
        proof {
            assert(self.templates.custom@.skip(0) =~= self.templates.custom@);
        }
        while i < n
            invariant
                i <= n,
                n == self.templates.custom@.len(),
                find_custom(self.templates.custom@, name@) == find_custom(
                    self.templates.custom@.skip(i as int),
                    name@,
                ),
            decreases n - i,
        {
            let entry = &self.templates.custom[i];
            if crate::text::str_eq(entry.0.as_str(), name) {
                proof {
                    assert(self.templates.custom@.skip(i as int)[0] == self.templates.custom@[
                        i as int
                    ]);
                }
                return Some(&entry.1);
            }
            proof {
                assert(self.templates.custom@.skip(i as int).drop_first()
                    =~= self.templates.custom@.skip(i + 1 as int));
                assert(self.templates.custom@.skip(i as int)[0] == self.templates.custom@[i as int]);
            }
            i = i + 1;
        }
        proof {
            assert(self.templates.custom@.skip(n as int) =~= Seq::<(
                String,
                TemplateConfig,
            )>::empty());
        }
        None
    }

    /// The display duration in milliseconds that the named template selects.
    pub fn template_duration(&self, name: &str) -> (r: u64)
        ensures
            r == spec_template_duration(*self, name@),
    {
        if crate::text::str_eq(name, "default") {
            return self.templates.default.duration;
        }
        match self.find_custom_template(name) {
            Some(t) => t.duration,
            None => self.templates.default.duration,
        }
    }

    /// The notification sound that the named template selects.
    pub fn template_sound(&self, name: &str) -> (r: String)
        ensures
            r@ == spec_template_sound(*self, name@),
    {
        if crate::text::str_eq(name, "default") {
            return self.templates.default.sound.clone();
        }
        match self.find_custom_template(name) {
            Some(t) => t.sound.clone(),
            None => self.templates.default.sound.clone(),
        }
    }
}

} // verus!
