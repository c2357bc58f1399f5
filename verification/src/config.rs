//! The settings that steer parsing and rendering.
use crate::text::same_strings;
use vstd::prelude::*;

verus! {

/// The configuration of a journal.
#[derive(Clone, Debug, PartialEq, Eq)]
pub struct Config {
    /// The categories that a commit summary may carry, in order of preference.
    pub categories: Vec<String>,
    /// The two strings that may enclose a category, opening one first.
    pub category_delimiters: Vec<String>,
    /// Whether output to a terminal is colored.
    pub colored_output: bool,
    /// The template that is used where none is given.
    pub default_template: Option<String>,
    /// Whether progress messages are shown.
    pub enable_debug: bool,
    /// The tags whose elements are left out of the output.
    pub excluded_commit_tags: Vec<String>,
    /// Whether the footers of the commits are collected and printed.
    pub enable_footers: bool,
    /// Whether the commit hash follows each entry.
    pub show_commit_hash: bool,
    /// Whether the prefix of a summary, such as `JIRA-1234`, is printed.
    pub show_prefix: bool,
    /// The order of the commits of a release: `date` or `name`.
    pub sort_by: String,
    /// The prefix that a prepared commit message starts with.
    pub template_prefix: String,
}

/// What a [`Config`] holds, as mathematical values.
pub struct ConfigModel {
    pub categories: Seq<Seq<char>>,
    pub category_delimiters: Seq<Seq<char>>,
    pub colored_output: bool,
    pub default_template: Option<Seq<char>>,
    pub enable_debug: bool,
    pub excluded_commit_tags: Seq<Seq<char>>,
    pub enable_footers: bool,
    pub show_commit_hash: bool,
    pub show_prefix: bool,
    pub sort_by: Seq<char>,
    pub template_prefix: Seq<char>,
}

impl DeepView for Config {
    type V = ConfigModel;

    open spec fn deep_view(&self) -> ConfigModel {
        ConfigModel {
            categories: self.categories.deep_view(),
            category_delimiters: self.category_delimiters.deep_view(),
            colored_output: self.colored_output,
            default_template: self.default_template.deep_view(),
            enable_debug: self.enable_debug,
            excluded_commit_tags: self.excluded_commit_tags.deep_view(),
            enable_footers: self.enable_footers,
            show_commit_hash: self.show_commit_hash,
            show_prefix: self.show_prefix,
            sort_by: self.sort_by@,
            template_prefix: self.template_prefix@,
        }
    }
}

impl ConfigModel {
    /// A configuration is valid when it names at least one category and
    /// exactly two delimiters.
    pub open spec fn valid(self) -> bool {
        self.categories.len() > 0 && self.category_delimiters.len() == 2
    }

    /// The delimiter that may stand before a category.
    pub open spec fn opening(self) -> Seq<char> {
        self.category_delimiters[0]
    }

    /// The delimiter that may stand after a category.
    pub open spec fn closing(self) -> Seq<char> {
        self.category_delimiters[1]
    }
}

/// The categories of the default configuration.
pub open spec fn default_categories() -> Seq<Seq<char>> {
    seq!["Added"@, "Changed"@, "Fixed"@, "Improved"@, "Removed"@]
}

/// The default configuration.
pub open spec fn default_config() -> ConfigModel {
    ConfigModel {
        categories: default_categories(),
        category_delimiters: seq!["["@, "]"@],
        colored_output: true,
        default_template: None,
        enable_debug: true,
        excluded_commit_tags: Seq::empty(),
        enable_footers: false,
        show_commit_hash: false,
        show_prefix: false,
        sort_by: "date"@,
        template_prefix: "JIRA-1234"@,
    }
}

/// The configuration in which nothing is set.
pub open spec fn empty_config() -> ConfigModel {
    ConfigModel {
        categories: Seq::empty(),
        category_delimiters: Seq::empty(),
        colored_output: false,
        default_template: None,
        enable_debug: false,
        excluded_commit_tags: Seq::empty(),
        enable_footers: false,
        show_commit_hash: false,
        show_prefix: false,
        sort_by: Seq::empty(),
        template_prefix: Seq::empty(),
    }
}

impl Default for Config {
    /// The configuration in which nothing is set. It is not valid: see
    /// [`Config::new`] for the one to start from.
    fn default() -> (r: Config)
        ensures
            r.deep_view() == empty_config(),
    {
        let r = Config {
            categories: Vec::new(),
            category_delimiters: Vec::new(),
            colored_output: false,
            default_template: None,
            enable_debug: false,
            excluded_commit_tags: Vec::new(),
            enable_footers: false,
            show_commit_hash: false,
            show_prefix: false,
            sort_by: String::new(),
            template_prefix: String::new(),
        };
        assert(r.categories.deep_view() =~= Seq::<Seq<char>>::empty());
        assert(r.category_delimiters.deep_view() =~= Seq::<Seq<char>>::empty());
        assert(r.excluded_commit_tags.deep_view() =~= Seq::<Seq<char>>::empty());
        r
    }
}

impl Config {
    /// Whether the configuration is valid: see [`ConfigModel::valid`].
    pub open spec fn valid(&self) -> bool {
        self.deep_view().valid()
    }

    /// The default configuration.
    pub fn new() -> (r: Config)
        ensures
            r.deep_view() == default_config(),
            r.valid(),
    {
        let category_delimiters = vec!["[".to_owned(), "]".to_owned()];
        let excluded_commit_tags: Vec<String> = Vec::new();
        let r = Config {
            categories: Self::get_default_categories(),
            category_delimiters,
            colored_output: true,
            default_template: None,
            enable_debug: true,
            excluded_commit_tags,
            enable_footers: false,
            show_commit_hash: false,
            show_prefix: false,
            sort_by: "date".to_owned(),
            template_prefix: "JIRA-1234".to_owned(),
        };
        assert(r.category_delimiters.deep_view() =~= seq!["["@, "]"@]);
        assert(r.excluded_commit_tags.deep_view() =~= Seq::<Seq<char>>::empty());
        r
    }

    /// The categories of the default configuration.
    pub fn get_default_categories() -> (r: Vec<String>)
        ensures
            r.deep_view() == default_categories(),
    {
        let r = vec![
            "Added".to_owned(),
            "Changed".to_owned(),
            "Fixed".to_owned(),
            "Improved".to_owned(),
            "Removed".to_owned(),
        ];
        assert(r.deep_view() =~= default_categories());
        r
    }

    /// Whether the configuration is valid.
    pub fn is_valid(&self) -> (r: bool)
        ensures
            r == self.valid(),
    {
        self.categories.len() > 0 && self.category_delimiters.len() == 2
    }

    /// Puts the default categories in place of an empty list of categories.
    pub fn ensure_categories(&mut self)
        ensures
            final(self).deep_view() == (ConfigModel {
                categories: if old(self).categories.len() == 0 {
                    default_categories()
                } else {
                    old(self).categories.deep_view()
                },
                ..old(self).deep_view()
            }),
    {
        if self.categories.len() == 0 {
            self.categories = Self::get_default_categories();
        }
    }

    /// Whether the configuration is the default one.
    pub fn is_default_config(&self) -> (r: bool)
        ensures
            r == (self.deep_view() == default_config()),
    {
        let d = Config::new();
        let same_template = match &self.default_template {
            None => true,
            Some(_) => false,
        };
        same_strings(&self.categories, &d.categories) && same_strings(
            &self.category_delimiters,
            &d.category_delimiters,
        ) && self.colored_output == d.colored_output && same_template && self.enable_debug
            == d.enable_debug && same_strings(&self.excluded_commit_tags, &d.excluded_commit_tags)
            && self.enable_footers == d.enable_footers && self.show_commit_hash
            == d.show_commit_hash && self.show_prefix == d.show_prefix && self.sort_by == d.sort_by
            && self.template_prefix == d.template_prefix
    }
}

} // verus!
