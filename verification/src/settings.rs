//! User settings: interface language, download mirrors, OCR and TTS engines.

use vstd::prelude::*;
use crate::text::{
    contains_chars, from_chars, has_prefix, matches_at, occurs_at, push_all, replace_chars, replace_seq,
    seq_contains, skip_trailing, sub_chars, to_chars, trim_bounds, trim_end_char, trim_seq,
};

verus! {

/// Whether the characters of `v` are exactly those of the literal `lit`.
pub fn eq_lit(v: &[char], lit: &str) -> (b: bool)
    ensures
        b == (v@ == lit@),
{
    let l = to_chars(lit);
    if v.len() != l.len() {
        return false;
    }
    let mut i: usize = 0;
    while i < v.len()
        invariant
            v@.len() == l@.len(),
            l@ == lit@,
            0 <= i <= v@.len(),
            forall|j: int| 0 <= j < i ==> v@[j] == l@[j],
        decreases v@.len() - i,
    {
        if v[i] != l[i] {
            return false;
        }
        i += 1;
    }
    assert(v@ == l@);
    true
}

/// Whether `lit` is a prefix of `v`.
pub fn starts_with_lit(v: &[char], lit: &str) -> (b: bool)
    ensures
        b == has_prefix(v@, lit@),
{
    let l = to_chars(lit);
    let r = matches_at(v, &l, 0);
    assert(r == occurs_at(v@, l@, 0));
    r
}

// ---------------------------------------------------------------------------
// Locales
// ---------------------------------------------------------------------------

/// The language codes offered in the language picker, "system" first.
pub open spec fn choice_codes() -> Seq<Seq<char>> {
    seq![
        "system"@,
        "zh-CN"@,
        "en"@,
        "ja"@,
        "ko"@,
        "ru"@,
        "fr"@,
        "es"@,
        "de"@,
        "it"@,
        "pt"@,
    ]
}

/// The native names shown beside each code ("system" has none).
pub open spec fn choice_names() -> Seq<Seq<char>> {
    seq![
        ""@,
        "简体中文"@,
        "English"@,
        "日本語"@,
        "한국어"@,
        "Русский"@,
        "Français"@,
        "Español"@,
        "Deutsch"@,
        "Italiano"@,
        "Português"@,
    ]
}

/// The part of a locale tag before the first `-` or `_`.
pub open spec fn first_segment(s: Seq<char>) -> Seq<char>
    decreases s.len(),
{
    if s.len() == 0 || s[0] == '-' || s[0] == '_' {
        Seq::empty()
    } else {
        seq![s[0]] + first_segment(s.drop_first())
    }
}

/// `char::to_ascii_lowercase`.
pub open spec fn ascii_lower(c: char) -> char {
    if 'A' <= c && c <= 'Z' {
        ((c as u32) + 32) as char
    } else {
        c
    }
}

pub fn to_ascii_lower(c: char) -> (r: char)
    ensures
        r == ascii_lower(c),
{
    if 'A' <= c && c <= 'Z' {
        ((c as u8) + 32) as char
    } else {
        c
    }
}

/// The catalogue that a system or user locale tag selects: its language
/// subtag, lower-cased, decides; Chinese maps to "zh-CN" and anything
/// unsupported to English.
pub open spec fn resolve_locale(tag: Seq<char>) -> Seq<char> {
    catalogue_for(first_segment(tag).map_values(|c: char| ascii_lower(c)))
}

/// The catalogue of a lower-cased language subtag.
pub open spec fn catalogue_for(lang: Seq<char>) -> Seq<char> {
    if lang == "zh"@ {
        "zh-CN"@
    } else if lang == "ja"@ {
        "ja"@
    } else if lang == "ko"@ {
        "ko"@
    } else if lang == "ru"@ {
        "ru"@
    } else if lang == "fr"@ {
        "fr"@
    } else if lang == "es"@ {
        "es"@
    } else if lang == "de"@ {
        "de"@
    } else if lang == "it"@ {
        "it"@
    } else if lang == "pt"@ {
        "pt"@
    } else {
        "en"@
    }
}

pub struct LocaleManager;

impl LocaleManager {
    /// The language picker's entries: `(code, native name)`, "system" first.
    pub fn choices() -> (r: Vec<(&'static str, &'static str)>)
        ensures
            r@.len() == choice_codes().len(),
            forall|i: int|
                0 <= i < r@.len() ==> (#[trigger] r@[i]).0@ == choice_codes()[i] && r@[i].1@
                    == choice_names()[i],
    {
        let r = vec![
            ("system", ""),
            ("zh-CN", "简体中文"),
            ("en", "English"),
            ("ja", "日本語"),
            ("ko", "한국어"),
            ("ru", "Русский"),
            ("fr", "Français"),
            ("es", "Español"),
            ("de", "Deutsch"),
            ("it", "Italiano"),
            ("pt", "Português"),
        ];
        r
    }

    /// The catalogue code for a locale tag such as "zh-Hans-CN" or "pt_BR".
    pub fn resolve(locale: &str) -> (r: &'static str)
        ensures
            r@ == resolve_locale(locale@),
    {
        let chars = to_chars(locale);
        let mut lang: Vec<char> = Vec::new();
        let mut i: usize = 0;
        assert(chars@.take(0) == Seq::<char>::empty());
        assert(chars@.skip(0) == chars@);
        while i < chars.len() && chars[i] != '-' && chars[i] != '_'
            invariant
                0 <= i <= chars@.len(),
                chars@ == locale@,
                lang@ == chars@.take(i as int).map_values(|c: char| ascii_lower(c)),
                first_segment(chars@) == chars@.take(i as int) + first_segment(
                    chars@.skip(i as int),
                ),
            decreases chars@.len() - i,
        {
            proof {
                assert(chars@.skip(i as int).drop_first() == chars@.skip(i + 1));
                assert(chars@.take(i + 1) == chars@.take(i as int).push(chars@[i as int]));
            }
            lang.push(to_ascii_lower(chars[i]));
            i += 1;
        }
        proof {
            assert(chars@.take(chars@.len() as int) == chars@);
            assert(first_segment(chars@.skip(i as int)) == Seq::<char>::empty());
            assert(first_segment(chars@) == chars@.take(i as int));
        }
        if eq_lit(&lang, "zh") {
            "zh-CN"
        } else if eq_lit(&lang, "ja") {
            "ja"
        } else if eq_lit(&lang, "ko") {
            "ko"
        } else if eq_lit(&lang, "ru") {
            "ru"
        } else if eq_lit(&lang, "fr") {
            "fr"
        } else if eq_lit(&lang, "es") {
            "es"
        } else if eq_lit(&lang, "de") {
            "de"
        } else if eq_lit(&lang, "it") {
            "it"
        } else if eq_lit(&lang, "pt") {
            "pt"
        } else {
            "en"
        }
    }
}

/// Whether a language setting asks for the system's language: "system" in
/// any ASCII case (`str::eq_ignore_ascii_case`).
pub open spec fn is_system_choice(language: Seq<char>) -> bool {
    language.map_values(|c: char| ascii_lower(c)) == "system"@
}

/// The catalogue code for a language setting: the system's locale (English
/// when it is unknown) for "system", the setting itself otherwise.
pub open spec fn locale_choice(language: Seq<char>, system_locale: Option<Seq<char>>) -> Seq<char> {
    if is_system_choice(language) {
        match system_locale {
            Some(tag) => resolve_locale(tag),
            None => resolve_locale("en"@),
        }
    } else {
        resolve_locale(language)
    }
}

/// `sys_locale::get_locale`: the system's locale tag, if it can tell. What it
/// returns depends on the machine, so nothing is said of it.
#[verifier::external_body]
fn system_locale() -> (r: Option<String>) {
    sys_locale::get_locale()
}

/// Whether a language setting asks for the system's language.
pub fn is_system(language: &str) -> (b: bool)
    ensures
        b == is_system_choice(language@),
{
    let chars = to_chars(language);
    let mut lowered: Vec<char> = Vec::new();
    let mut i: usize = 0;
    while i < chars.len()
        invariant
            chars@ == language@,
            0 <= i <= chars@.len(),
            lowered@ == chars@.take(i as int).map_values(|c: char| ascii_lower(c)),
        decreases chars@.len() - i,
    {
        lowered.push(to_ascii_lower(chars[i]));
        i += 1;
        assert(chars@.take(i as int) == chars@.take(i - 1 as int).push(chars@[i - 1]));
    }
    assert(chars@.take(chars@.len() as int) == chars@);
    eq_lit(&lowered, "system")
}

/// The language the settings page shows as chosen: "system" for the
/// system's language, otherwise the catalogue code of the setting.
pub fn language_choice(language: &str) -> (r: String)
    ensures
        r@ == (if is_system_choice(language@) {
            "system"@
        } else {
            resolve_locale(language@)
        }),
{
    if is_system(language) {
        "system".to_owned()
    } else {
        LocaleManager::resolve(language).to_owned()
    }
}

/// `rust_i18n::set_locale`: the interface's messages come from the
/// catalogue `locale` from now on. It changes state outside the library and
/// returns nothing, so nothing is said of it.
#[verifier::external_body]
fn set_interface_locale(locale: &str) {
    rust_i18n::set_locale(locale)
}

impl LocaleManager {
    /// The catalogue code for a language setting, given the system's locale
    /// tag for the "system" setting.
    pub fn locale_for(language: &str, system_locale: Option<&str>) -> (r: &'static str)
        ensures
            r@ == locale_choice(
                language@,
                match system_locale {
                    Some(tag) => Some(tag@),
                    None => None,
                },
            ),
    {
        if is_system(language) {
            match system_locale {
                Some(tag) => LocaleManager::resolve(tag),
                None => LocaleManager::resolve("en"),
            }
        } else {
            LocaleManager::resolve(language)
        }
    }

    /// The catalogue code the interface uses for a language setting (for
    /// "system" the system's locale is read first); the interface's messages
    /// are switched to it.
    pub fn apply(language: &str) -> (r: &'static str)
        ensures
            !is_system_choice(language@) ==> r@ == resolve_locale(language@),
            is_system_choice(language@) ==> exists|tag: Option<Seq<char>>|
                r@ == #[trigger] locale_choice(language@, tag),
    {
        let system = system_locale();
        let r = match &system {
            Some(tag) => LocaleManager::locale_for(language, Some(tag.as_str())),
            None => LocaleManager::locale_for(language, None),
        };
        proof {
            let tag = match system {
                Some(t) => Some(t@),
                None => None,
            };
            assert(r@ == locale_choice(language@, tag));
        }
        set_interface_locale(r);
        r
    }
}

// ---------------------------------------------------------------------------
// Engines
// ---------------------------------------------------------------------------

/// The OCR pipeline a scan runs through.
#[derive(Clone, Copy, Debug, PartialEq, Eq, Structural)]
pub enum OcrEngine {
    PaddleV6,
    PaddleVl16,
}

/// The name an OCR engine is shown under.
pub open spec fn engine_label(engine: OcrEngine) -> Seq<char> {
    match engine {
        OcrEngine::PaddleV6 => "PP-OCRv6 · ONNX"@,
        OcrEngine::PaddleVl16 => "PaddleOCR-VL 1.6"@,
    }
}

impl OcrEngine {
    pub fn label(self) -> (r: &'static str)
        ensures
            r@ == engine_label(self),
    {
        match self {
            OcrEngine::PaddleV6 => "PP-OCRv6 · ONNX",
            OcrEngine::PaddleVl16 => "PaddleOCR-VL 1.6",
        }
    }
}

impl Default for OcrEngine {
    fn default() -> (r: Self)
        ensures
            r == OcrEngine::PaddleV6,
    {
        OcrEngine::PaddleV6
    }
}

/// The speech engine used for reading results aloud.
#[derive(Clone, Copy, Debug, PartialEq, Eq, Structural)]
pub enum TtsEngine {
    Melo,
    Kokoro,
}

impl TtsEngine {
    pub fn label(self) -> (r: &'static str)
        ensures
            r@ == (match self {
                TtsEngine::Melo => "Melo · ZH/EN"@,
                TtsEngine::Kokoro => "Kokoro · EN"@,
            }),
    {
        match self {
            TtsEngine::Melo => "Melo · ZH/EN",
            TtsEngine::Kokoro => "Kokoro · EN",
        }
    }

    /// The key prefix that separates one engine's cached audio from another's.
    pub fn cache_name(self) -> (r: &'static str)
        ensures
            r@ == (match self {
                TtsEngine::Melo => "melo"@,
                TtsEngine::Kokoro => "kokoro"@,
            }),
    {
        match self {
            TtsEngine::Melo => "melo",
            TtsEngine::Kokoro => "kokoro",
        }
    }
}

impl Default for TtsEngine {
    fn default() -> (r: Self)
        ensures
            r == TtsEngine::Melo,
    {
        TtsEngine::Melo
    }
}

// ---------------------------------------------------------------------------
// Settings
// ---------------------------------------------------------------------------

/// Everything the app persists in `settings.toml`.
pub struct Settings {
    pub locale: LocaleSettings,
    pub download: DownloadSettings,
    pub ocr_engine: OcrEngine,
    pub tts_engine: TtsEngine,
}

impl Default for Settings {
    fn default() -> (r: Self)
        ensures
            r.locale.language@ == "system"@,
            r.download.resume,
            !r.download.wifi_only,
            r.download.hf_endpoint@.len() == 0,
            r.download.github_proxy@.len() == 0,
            r.ocr_engine == OcrEngine::PaddleV6,
            r.tts_engine == TtsEngine::Melo,
    {
        Settings {
            locale: LocaleSettings::default(),
            download: DownloadSettings::default(),
            ocr_engine: OcrEngine::default(),
            tts_engine: TtsEngine::default(),
        }
    }
}

pub struct LocaleSettings {
    /// "system" or a catalogue code.
    pub language: String,
}

impl Default for LocaleSettings {
    fn default() -> (r: Self)
        ensures
            r.language@ == "system"@,
    {
        LocaleSettings { language: "system".to_owned() }
    }
}

pub struct DownloadSettings {
    /// Continue `.part` files with HTTP `Range` instead of starting over.
    pub resume: bool,
    pub wifi_only: bool,
    /// Replaces `https://huggingface.co` when not blank.
    pub hf_endpoint: String,
    /// A template holding `{giturl}`, `${giturl}` or `{$giturl}`.
    pub github_proxy: String,
}

impl Default for DownloadSettings {
    fn default() -> (r: Self)
        ensures
            r.resume,
            !r.wifi_only,
            r.hf_endpoint@.len() == 0,
            r.github_proxy@.len() == 0,
    {
        DownloadSettings {
            resume: true,
            wifi_only: false,
            hf_endpoint: String::new(),
            github_proxy: String::new(),
        }
    }
}

pub open spec fn hf_host() -> Seq<char> {
    "https://huggingface.co"@
}

pub open spec fn hf_prefix() -> Seq<char> {
    "https://huggingface.co/"@
}

/// The Hugging Face endpoint that replaces `hf_host()`, before trailing
/// slashes are removed: a non-blank environment value, else a non-blank
/// configured value, else the mirror for Chinese and the Hugging Face host
/// otherwise.
pub open spec fn hf_endpoint_choice(
    configured: Seq<char>,
    locale: Seq<char>,
    env: Option<Seq<char>>,
) -> Seq<char> {
    if env is Some && trim_seq(env->0).len() > 0 {
        env->0
    } else if trim_seq(configured).len() > 0 {
        configured
    } else if locale == "zh-CN"@ {
        "https://hf-mirror.com"@
    } else {
        hf_host()
    }
}

/// The GitHub proxy placeholders, in the order they are tried.
pub open spec fn giturl_placeholders() -> Seq<Seq<char>> {
    seq!["${giturl}"@, "{$giturl}"@, "{giturl}"@]
}

/// The download URL for `source`: Hugging Face URLs move to the chosen
/// endpoint; GitHub URLs go through a non-blank proxy template whose first
/// present placeholder is replaced (every occurrence) by the URL; anything
/// else is left as it is.
pub open spec fn resolved_url(
    hf_endpoint: Seq<char>,
    github_proxy: Seq<char>,
    source: Seq<char>,
    locale: Seq<char>,
    env: Option<Seq<char>>,
) -> Seq<char> {
    if has_prefix(source, hf_prefix()) {
        trim_end_char(hf_endpoint_choice(hf_endpoint, locale, env), '/') + source.skip(
            hf_host().len() as int,
        )
    } else if (has_prefix(source, "https://github.com/"@) || has_prefix(
        source,
        "https://raw.githubusercontent.com/"@,
    )) && trim_seq(github_proxy).len() > 0 {
        if seq_contains(github_proxy, giturl_placeholders()[0]) {
            replace_seq(github_proxy, giturl_placeholders()[0], source)
        } else if seq_contains(github_proxy, giturl_placeholders()[1]) {
            replace_seq(github_proxy, giturl_placeholders()[1], source)
        } else if seq_contains(github_proxy, giturl_placeholders()[2]) {
            replace_seq(github_proxy, giturl_placeholders()[2], source)
        } else {
            source
        }
    } else {
        source
    }
}

/// Where a Hugging Face download goes: to a non-blank `HF_ENDPOINT` value
/// whenever there is one, whatever endpoint is configured and whatever the
/// language; else to a non-blank configured endpoint; else, in Chinese, to
/// hf-mirror.com; else to Hugging Face itself. The endpoint loses its
/// trailing slashes and the URL keeps its path.
pub proof fn law_hugging_face_endpoint_order(
    hf_endpoint: Seq<char>,
    github_proxy: Seq<char>,
    source: Seq<char>,
    locale: Seq<char>,
    env: Option<Seq<char>>,
)
    requires
        has_prefix(source, "https://huggingface.co/"@),
    ensures
        ({
            let path = source.skip(22);
            let r = resolved_url(hf_endpoint, github_proxy, source, locale, env);
            let env_set = env is Some && trim_seq(env->0).len() > 0;
            &&& env_set ==> r == trim_end_char(env->0, '/') + path
            &&& !env_set && trim_seq(hf_endpoint).len() > 0 ==> r == trim_end_char(hf_endpoint, '/')
                + path
            &&& !env_set && trim_seq(hf_endpoint).len() == 0 && locale == "zh-CN"@ ==> r
                == "https://hf-mirror.com"@ + path
            &&& !env_set && trim_seq(hf_endpoint).len() == 0 && locale != "zh-CN"@ ==> r == source
        }),
{
    reveal_strlit("https://huggingface.co/");
    reveal_strlit("https://huggingface.co");
    reveal_strlit("https://hf-mirror.com");
    assert(hf_prefix() == "https://huggingface.co/"@);
    assert(hf_host().len() == 22);
    let path = source.skip(22);
    assert(trim_end_char("https://hf-mirror.com"@, '/') == "https://hf-mirror.com"@);
    assert(trim_end_char(hf_host(), '/') == hf_host());
    assert(hf_host() + path =~= source) by {
        assert(source.take(22) =~= hf_host()) by {
            assert(source.take(23) =~= "https://huggingface.co/"@);
        }
        assert(source =~= source.take(22) + source.skip(22));
    }
}

/// Only Hugging Face and GitHub downloads are redirected: any other URL is
/// fetched as it is, whatever the settings, locale and environment.
pub proof fn law_other_urls_are_fetched_as_they_are(
    hf_endpoint: Seq<char>,
    github_proxy: Seq<char>,
    source: Seq<char>,
    locale: Seq<char>,
    env: Option<Seq<char>>,
)
    requires
        !has_prefix(source, hf_prefix()),
        !has_prefix(source, "https://github.com/"@),
        !has_prefix(source, "https://raw.githubusercontent.com/"@),
    ensures
        resolved_url(hf_endpoint, github_proxy, source, locale, env) == source,
{
}

/// Every locale tag resolves to a language the picker offers.
pub proof fn law_resolved_locales_are_offered(tag: Seq<char>)
    ensures
        exists|i: int| 1 <= i < choice_codes().len() && choice_codes()[i] == #[trigger] resolve_locale(
            tag,
        ),
{
    let r = resolve_locale(tag);
    let codes = choice_codes();
    if r == codes[1] {
    } else if r == codes[2] {
    } else if r == codes[3] {
    } else if r == codes[4] {
    } else if r == codes[5] {
    } else if r == codes[6] {
    } else if r == codes[7] {
    } else if r == codes[8] {
    } else if r == codes[9] {
    } else {
        assert(r == codes[10]);
    }
}

proof fn lemma_resolve_code(code: Seq<char>, lang: Seq<char>)
    requires
        first_segment(code) == lang,
        lang.map_values(|c: char| ascii_lower(c)) == lang,
        catalogue_for(lang) == code,
    ensures
        resolve_locale(code) == code,
{
}

/// Which catalogue a tag selects depends only on its language subtag,
/// lower-cased; and a catalogue code resolves to itself, so resolving twice
/// is resolving once.
pub proof fn law_resolving_a_code_gives_it_back(tag: Seq<char>, other: Seq<char>)
    ensures
        first_segment(tag).map_values(|c: char| ascii_lower(c)) == first_segment(other).map_values(
            |c: char| ascii_lower(c),
        ) ==> resolve_locale(tag) == resolve_locale(other),
        resolve_locale(resolve_locale(tag)) == resolve_locale(tag),
{
    reveal_strlit("zh-CN");
    reveal_strlit("zh");
    reveal_strlit("ja");
    reveal_strlit("ko");
    reveal_strlit("ru");
    reveal_strlit("fr");
    reveal_strlit("es");
    reveal_strlit("de");
    reveal_strlit("it");
    reveal_strlit("pt");
    reveal_strlit("en");
    reveal_with_fuel(first_segment, 4);
    let r = resolve_locale(tag);
    if r == "zh-CN"@ {
        assert(first_segment(r) =~= "zh"@);
        assert("zh"@.map_values(|c: char| ascii_lower(c)) =~= "zh"@);
        lemma_resolve_code(r, "zh"@);
    } else {
        assert(r.len() == 2);
        assert(first_segment(r) =~= r);
        assert(r.map_values(|c: char| ascii_lower(c)) =~= r);
        lemma_resolve_code(r, r);
    }
}

/// Whether `v` has a non-whitespace character.
fn not_blank(v: &[char]) -> (b: bool)
    ensures
        b == (trim_seq(v@).len() > 0),
{
    let (a, z) = trim_bounds(v, 0, v.len());
    assert(v@.subrange(0, v@.len() as int) == v@);
    a < z
}

impl DownloadSettings {
    /// The URL to fetch for `source`, given the interface locale and the
    /// `HF_ENDPOINT` environment value, if any.
    pub fn resolve_url(&self, source: &str, locale: &str, env_endpoint: Option<&str>) -> (r: String)
        ensures
            r@ == resolved_url(
                self.hf_endpoint@,
                self.github_proxy@,
                source@,
                locale@,
                match env_endpoint {
                    Some(v) => Some(v@),
                    None => None,
                },
            ),
    {
        let src = to_chars(source);
        if starts_with_lit(&src, "https://huggingface.co/") {
            let env_ok = match env_endpoint {
                Some(v) => not_blank(&to_chars(v)),
                None => false,
            };
            let configured = to_chars(self.hf_endpoint.as_str());
            let endpoint: Vec<char> = if env_ok {
                to_chars(env_endpoint.unwrap())
            } else if not_blank(&configured) {
                configured
            } else if eq_lit(&to_chars(locale), "zh-CN") {
                to_chars("https://hf-mirror.com")
            } else {
                to_chars("https://huggingface.co")
            };
            let end = skip_trailing(&endpoint, 0, endpoint.len(), '/');
            let mut out = sub_chars(&endpoint, 0, end);
            let host_len = to_chars("https://huggingface.co").len();
            proof {
                assert(endpoint@.subrange(0, endpoint@.len() as int) == endpoint@);
                reveal_strlit("https://huggingface.co");
                reveal_strlit("https://huggingface.co/");
            }
            let rest = sub_chars(&src, host_len, src.len());
            push_all(&mut out, &rest);
            proof {
                assert(rest@ == src@.skip(hf_host().len() as int));
            }
            return from_chars(&out);
        }
        let is_github = starts_with_lit(&src, "https://github.com/") || starts_with_lit(
            &src,
            "https://raw.githubusercontent.com/",
        );
        let proxy = to_chars(self.github_proxy.as_str());
        if is_github && not_blank(&proxy) {
            let p0 = to_chars("${giturl}");
            let p1 = to_chars("{$giturl}");
            let p2 = to_chars("{giturl}");
            proof {
                reveal_strlit("${giturl}");
                reveal_strlit("{$giturl}");
                reveal_strlit("{giturl}");
            }
            if contains_chars(&proxy, &p0) {
                return from_chars(&replace_chars(&proxy, &p0, &src));
            }
            if contains_chars(&proxy, &p1) {
                return from_chars(&replace_chars(&proxy, &p1, &src));
            }
            if contains_chars(&proxy, &p2) {
                return from_chars(&replace_chars(&proxy, &p2, &src));
            }
        }
        from_chars(&src)
    }
}

} // verus!
