//! Specifying the address of the DNS server to send requests to.
//!
//! The system's configuration is read by the caller; this module decides what
//! to read next, parses what was read, and chooses the nameserver.

use vstd::prelude::*;
use vstd::utf8::{decode_utf8, valid_utf8};

use crate::ip::{ip_canonical, ip_text, ip_text_is_canonical, ipv4_text, ipv4_text_reads_back};
use crate::localize::{error_reading_network_config, no_nameserver_found, unsupported_platform, Language};
use crate::text::{
    before_char, before_char_chars, chars_of, contains_seq, find, find_chars, matches_at, split_lines, split_words,
    ascii_whitespace_char, ascii_words_split_at_whitespace, push_str, starts_with, string_of, text_lines, trim, trim_chars, words,
};

verus! {

/// The text that `String::from_utf8_lossy` makes of a sequence of bytes.
pub uninterp spec fn utf8_lossy(bytes: Seq<u8>) -> Seq<char>;

/// Decodes bytes as UTF-8 with `String::from_utf8_lossy`. For valid UTF-8 the
/// result is the decoded text, as the documentation says; what it is for other
/// bytes (each invalid sequence replaced by U+FFFD) is left to the name
/// `utf8_lossy`.
#[verifier::external_body]
fn from_utf8_lossy(bytes: &[u8]) -> (r: String)
    ensures
        r@ == utf8_lossy(bytes@),
        valid_utf8(bytes@) ==> r@ == decode_utf8(bytes@),
{
    String::from_utf8_lossy(bytes).into_owned()
}

/// The views of a sequence of strings.
pub open spec fn views(v: Seq<String>) -> Seq<Seq<char>> {
    v.map_values(|s: String| s@)
}

/// The views of a sequence of character vectors.
pub open spec fn char_views(v: Seq<Vec<char>>) -> Seq<Seq<char>> {
    v.map_values(|s: Vec<char>| s@)
}

/// A **resolver type** is the source of a `Resolver`.
#[derive(PartialEq, Debug)]
pub enum ResolverType {
    /// Obtain a resolver by consulting the system in order to find a
    /// nameserver and a search list.
    SystemDefault,
    /// Obtain a resolver by using the given user-submitted string.
    Specific(String),
}

/// A **resolver** knows the address of the server we should
/// send DNS requests to, and the search list for name lookup.
#[derive(Debug)]
pub struct Resolver {
    /// The address of the nameserver.
    pub nameserver: String,
    /// The search list for name lookup.
    pub search_list: Vec<String>,
}

impl Resolver {
    /// Returns a nameserver that queries should be sent to.
    pub fn nameserver(&self) -> (r: String)
        ensures
            r@ == self.nameserver@,
    {
        self.nameserver.clone()
    }
}

/// Something that can go wrong while obtaining a `Resolver`. Errors of the
/// system are kept as the text they display.
#[derive(Debug)]
pub enum ResolverLookupError {
    /// The system information was successfully read, but there was no adapter
    /// suitable to use.
    NoNameserver,
    /// There was an error accessing the network configuration.
    IO(String),
    /// There was an error reading the network adapters on Windows.
    Windows(String),
    /// dog is running on a platform where it doesn't know how to get the
    /// network configuration, so the user must supply one instead.
    UnsupportedPlatform,
}

/// The plain-value model of a `ResolverLookupError`.
pub enum LookupErrorModel {
    NoNameserver,
    IO(Seq<char>),
    Windows(Seq<char>),
    UnsupportedPlatform,
}

impl ResolverLookupError {
    /// The plain-value model of this error.
    pub open spec fn model(&self) -> LookupErrorModel {
        match self {
            ResolverLookupError::NoNameserver => LookupErrorModel::NoNameserver,
            ResolverLookupError::IO(e) => LookupErrorModel::IO(e@),
            ResolverLookupError::Windows(e) => LookupErrorModel::Windows(e@),
            ResolverLookupError::UnsupportedPlatform => LookupErrorModel::UnsupportedPlatform,
        }
    }

    /// The localised text that describes this error.
    pub fn message(&self, lang: Language) -> (r: String)
        ensures
            r@ == match self.model() {
                LookupErrorModel::NoNameserver => no_nameserver_found_text(lang),
                LookupErrorModel::IO(e) => network_config_error_text(lang, e),
                LookupErrorModel::Windows(e) => network_config_error_text(lang, e),
                LookupErrorModel::UnsupportedPlatform => unsupported_platform_text(lang),
            },
    {
        match self {
            ResolverLookupError::NoNameserver => string_of(&chars_of(no_nameserver_found(lang))),
            ResolverLookupError::IO(e) => error_reading_network_config(lang, e.as_str()),
            ResolverLookupError::Windows(e) => error_reading_network_config(lang, e.as_str()),
            ResolverLookupError::UnsupportedPlatform => string_of(&chars_of(unsupported_platform(lang))),
        }
    }
}

/// The text of `no_nameserver_found`.
pub open spec fn no_nameserver_found_text(lang: Language) -> Seq<char> {
    crate::localize::pick(lang, "No nameserver found"@, "未找到DNS服务器"@)
}

/// The text of `error_reading_network_config` for the displayed error `e`.
pub open spec fn network_config_error_text(lang: Language, e: Seq<char>) -> Seq<char> {
    crate::localize::pick(lang, "Error reading network configuration: "@ + e, "读取网络配置出错："@ + e)
}

/// The text of `unsupported_platform`.
pub open spec fn unsupported_platform_text(lang: Language) -> Seq<char> {
    crate::localize::pick(
        lang,
        "dog cannot automatically detect nameservers on this platform; you will have to provide one explicitly"@,
        "dog无法在此平台上自动检测DNS服务器；请手动指定"@,
    )
}

/// The address and the search list found in the lines of a resolv.conf-style
/// file, scanning from the first line with the given search list so far: the
/// address of the first `nameserver ` line whose rest is an IP address, in
/// canonical form, with the words of the last `search ` line before it.
pub open spec fn resolv_conf_scan(lines: Seq<Seq<char>>, search: Seq<Seq<char>>) -> Option<(Seq<char>, Seq<Seq<char>>)>
    decreases lines.len(),
{
    if lines.len() == 0 {
        None
    } else {
        let line = lines[0];
        let ns = if starts_with(line, "nameserver "@) {
            ip_text(line.skip("nameserver "@.len() as int))
        } else {
            None
        };
        match ns {
            Some(addr) => Some((addr, search)),
            None => resolv_conf_scan(
                lines.drop_first(),
                if starts_with(line, "search "@) {
                    words(line.skip("search "@.len() as int), true)
                } else {
                    search
                },
            ),
        }
    }
}

/// The first nameserver of a resolv.conf-style file, and the search list
/// written before it, read from its lines.
pub open spec fn resolv_conf(lines: Seq<Seq<char>>) -> Option<(Seq<char>, Seq<Seq<char>>)> {
    resolv_conf_scan(lines, seq![])
}

/// Makes the strings of a list of character vectors.
pub fn strings_of(v: &Vec<Vec<char>>) -> (r: Vec<String>)
    ensures
        views(r@) == char_views(v@),
{
    let mut r: Vec<String> = Vec::new();
    let mut i: usize = 0;
    while i < v.len()
        invariant
            i <= v.len(),
            r@.len() == i,
            views(r@) == char_views(v@).take(i as int),
        decreases v.len() - i,
    {
        let ghost old_r = r@;
        r.push(string_of(&v[i]));
        assert forall|k: int| 0 <= k < i + 1 implies #[trigger] views(r@)[k] == char_views(v@).take(i + 1)[k] by {
            if k < i {
                assert(r@[k] == old_r[k]);
                assert(views(old_r)[k] == char_views(v@).take(i as int)[k]);
            }
        }
        i += 1;
        assert(views(r@) =~= char_views(v@).take(i as int));
    }
    assert(char_views(v@).take(v.len() as int) =~= char_views(v@));
    r
}

/// Reads the first nameserver, and the search list before it, from the lines
/// of a resolv.conf-style file; `None` when no line names a nameserver.
pub fn parse_resolv_conf(lines: &Vec<String>) -> (r: Option<(String, Vec<String>)>)
    ensures
        match r {
            Some((ns, sl)) => resolv_conf(views(lines@)) == Some((ns@, views(sl@))),
            None => resolv_conf(views(lines@)) is None,
        },
{
    let ghost lv = views(lines@);
    let ns_prefix = chars_of("nameserver ");
    let search_prefix = chars_of("search ");
    let mut search: Vec<String> = Vec::new();
    let mut i: usize = 0;
    assert(lv.skip(0) =~= lv);
    assert(views(search@) =~= Seq::<Seq<char>>::empty());
    while i < lines.len()
        invariant
            i <= lines.len(),
            lv == views(lines@),
            ns_prefix@ == "nameserver "@,
            search_prefix@ == "search "@,
            resolv_conf_scan(lv.skip(i as int), views(search@)) == resolv_conf(lv),
        decreases lines.len() - i,
    {
        let line = chars_of(lines[i].as_str());
        assert(lv.skip(i as int)[0] == line@);
        assert(lv.skip(i as int).drop_first() =~= lv.skip(i + 1));
        assert(line@.skip(0) =~= line@);
        if matches_at(&line, 0, &ns_prefix) {
            let rest = crate::text::slice_chars(&line, ns_prefix.len(), line.len());
            assert(rest@ =~= line@.skip("nameserver "@.len() as int));
            let rest_s = string_of(&rest);
            match ip_canonical(rest_s.as_str()) {
                Some(addr) => {
                    return Some((addr, search));
                },
                None => {},
            }
        }
        if matches_at(&line, 0, &search_prefix) {
            let rest = crate::text::slice_chars(&line, search_prefix.len(), line.len());
            assert(rest@ =~= line@.skip("search "@.len() as int));
            let ws = split_words(&rest, true);
            search = strings_of(&ws);
        }
        i += 1;
    }
    None
}

/// If the lines so far name a nameserver, lines after them change nothing.
proof fn lemma_resolv_conf_scan_prefix(a: Seq<Seq<char>>, b: Seq<Seq<char>>, search: Seq<Seq<char>>)
    requires
        resolv_conf_scan(a, search) is Some,
    ensures
        resolv_conf_scan(a + b, search) == resolv_conf_scan(a, search),
    decreases a.len(),
{
    let line = a[0];
    assert((a + b)[0] == line);
    assert((a + b).drop_first() =~= a.drop_first() + b);
    let ns = if starts_with(line, "nameserver "@) {
        ip_text(line.skip("nameserver "@.len() as int))
    } else {
        None
    };
    if ns is None {
        let next = if starts_with(line, "search "@) {
            words(line.skip("search "@.len() as int), true)
        } else {
            search
        };
        lemma_resolv_conf_scan_prefix(a.drop_first(), b, next);
    }
}

/// Once a nameserver has been found in the lines of a resolv.conf-style file,
/// the lines that follow them change neither the nameserver nor the search list.
pub proof fn resolv_conf_ignores_later_lines(a: Seq<Seq<char>>, b: Seq<Seq<char>>)
    requires
        resolv_conf(a) is Some,
    ensures
        resolv_conf(a + b) == resolv_conf(a),
{
    lemma_resolv_conf_scan_prefix(a, b, seq![]);
}

/// Whether a line of a resolv.conf-style file names a usable nameserver:
/// `nameserver ` followed by an IP address.
pub open spec fn nameserver_line(line: Seq<char>) -> bool {
    starts_with(line, "nameserver "@) && ip_text(line.skip("nameserver "@.len() as int)) is Some
}

/// The search list in force before line `i`: the words of the last `search `
/// line before it, or none.
pub open spec fn search_before(lines: Seq<Seq<char>>, i: int) -> Seq<Seq<char>>
    decreases i,
{
    if i <= 0 || i > lines.len() {
        seq![]
    } else if starts_with(lines[i - 1], "search "@) {
        words(lines[i - 1].skip("search "@.len() as int), true)
    } else {
        search_before(lines, i - 1)
    }
}

/// Scanning from line `j` with the search list in force there is scanning
/// from the start, as long as no line before `j` names a nameserver.
proof fn lemma_resolv_conf_scan_from(lines: Seq<Seq<char>>, j: int)
    requires
        0 <= j <= lines.len(),
        forall|k: int| 0 <= k < j ==> !nameserver_line(#[trigger] lines[k]),
    ensures
        resolv_conf_scan(lines.skip(j), search_before(lines, j)) == resolv_conf(lines),
    decreases j,
{
    if j == 0 {
        assert(lines.skip(0) =~= lines);
    } else {
        lemma_resolv_conf_scan_from(lines, j - 1);
        let rest = lines.skip(j - 1);
        assert(rest[0] == lines[j - 1]);
        assert(!nameserver_line(lines[j - 1]));
        assert(rest.drop_first() =~= lines.skip(j));
    }
}

/// The nameserver of a resolv.conf-style file is that of its first line that
/// names a usable one, in canonical form, and its search list the words of
/// the last `search ` line before that line; lines after it are not read.
pub proof fn resolv_conf_first_nameserver_line(lines: Seq<Seq<char>>, i: int)
    requires
        0 <= i < lines.len(),
        nameserver_line(lines[i]),
        forall|k: int| 0 <= k < i ==> !nameserver_line(#[trigger] lines[k]),
    ensures
        resolv_conf(lines) == Some(
            (ip_text(lines[i].skip("nameserver "@.len() as int))->0, search_before(lines, i)),
        ),
{
    lemma_resolv_conf_scan_from(lines, i);
    assert(lines.skip(i)[0] == lines[i]);
}

/// A resolv.conf-style file none of whose lines names a usable nameserver
/// names none.
pub proof fn resolv_conf_without_nameserver_line(lines: Seq<Seq<char>>)
    requires
        forall|k: int| 0 <= k < lines.len() ==> !nameserver_line(#[trigger] lines[k]),
    ensures
        resolv_conf(lines) is None,
{
    lemma_resolv_conf_scan_from(lines, lines.len() as int);
}

/// Whether every entry of a search list is a nonempty domain free of ASCII
/// whitespace.
pub open spec fn search_list_split(sl: Seq<Seq<char>>) -> bool {
    forall|i: int, k: int|
        0 <= i < sl.len() && 0 <= k < sl[i].len() ==> !ascii_whitespace_char(#[trigger] sl[i][k]) && sl[i].len() > 0
}

proof fn lemma_resolv_conf_scan_split(lines: Seq<Seq<char>>, search: Seq<Seq<char>>)
    requires
        search_list_split(search),
    ensures
        resolv_conf_scan(lines, search) matches Some((_, sl)) ==> search_list_split(sl),
    decreases lines.len(),
{
    if lines.len() > 0 {
        let line = lines[0];
        if starts_with(line, "search "@) {
            let w = line.skip("search "@.len() as int);
            ascii_words_split_at_whitespace(w);
            assert(search_list_split(words(w, true)));
        }
        lemma_resolv_conf_scan_split(
            lines.drop_first(),
            if starts_with(line, "search "@) {
                words(line.skip("search "@.len() as int), true)
            } else {
                search
            },
        );
    }
}

/// The search list that a resolv.conf-style file gives is split at every
/// ASCII whitespace character, tabs included: no domain in it is empty or
/// holds such a character.
pub proof fn resolv_conf_search_list_is_split(lines: Seq<Seq<char>>)
    ensures
        resolv_conf(lines) matches Some((_, sl)) ==> search_list_split(sl),
{
    lemma_resolv_conf_scan_split(lines, seq![]);
}

/// The message of the error given when a resolv.conf-style file at `path`
/// names no usable nameserver.
pub fn no_nameserver_in(path: &str) -> (r: String)
    ensures
        r@ == "No nameserver in "@ + path@,
{
    let mut r = string_of(&chars_of("No nameserver in "));
    push_str(&mut r, path);
    r
}

/// The view of an optional string.
pub open spec fn opt_view(o: Option<String>) -> Option<Seq<char>> {
    match o {
        Some(s) => Some(s@),
        None => None,
    }
}

/// The address that a DNS server entry of `resolvectl` names: the entry up to
/// a `#` (which starts a server name) and up to a `%` (which starts an
/// interface), when that is an IP address, in canonical form.
pub open spec fn entry_addr(w: Seq<char>) -> Option<Seq<char>> {
    ip_text(before_char(before_char(w, '#'), '%'))
}

/// The address of the first entry that names one.
pub open spec fn first_entry_addr(ws: Seq<Seq<char>>) -> Option<Seq<char>>
    decreases ws.len(),
{
    if ws.len() == 0 {
        None
    } else {
        match entry_addr(ws[0]) {
            Some(a) => Some(a),
            None => first_entry_addr(ws.drop_first()),
        }
    }
}

/// The nameserver chosen from the lines of `resolvectl dns`, from the first
/// line on, given the global DNS server found so far: the first address of the
/// first link line (`Link ...`, not the loopback `(lo)`) that lists one, or
/// else the first address listed on the last `Global:` line that lists anything.
pub open spec fn resolvectl_scan(lines: Seq<Seq<char>>, global: Option<Seq<char>>) -> Option<Seq<char>>
    decreases lines.len(),
{
    if lines.len() == 0 {
        global
    } else {
        let line = lines[0];
        let rest = lines.drop_first();
        match find(line, seq![':']) {
            None => resolvectl_scan(rest, global),
            Some(p) => {
                let after = trim(line.skip(p + 1));
                if after.len() == 0 {
                    resolvectl_scan(rest, global)
                } else if starts_with(line, "Global:"@) {
                    resolvectl_scan(rest, first_entry_addr(words(after, false)))
                } else if starts_with(line, "Link "@) && !contains_seq(line, "(lo)"@) {
                    match first_entry_addr(words(after, false)) {
                        Some(a) => Some(a),
                        None => resolvectl_scan(rest, global),
                    }
                } else {
                    resolvectl_scan(rest, global)
                }
            },
        }
    }
}

/// The nameserver chosen from the output of `resolvectl dns`.
pub open spec fn resolvectl_choice(text: Seq<char>) -> Option<Seq<char>> {
    resolvectl_scan(text_lines(text), None)
}

/// Finds the address of the first entry that names one.
fn first_entry_addr_exec(ws: &Vec<Vec<char>>) -> (r: Option<String>)
    ensures
        opt_view(r) == first_entry_addr(char_views(ws@)),
{
    let ghost wv = char_views(ws@);
    let mut i: usize = 0;
    assert(wv.skip(0) =~= wv);
    while i < ws.len()
        invariant
            i <= ws.len(),
            wv == char_views(ws@),
            first_entry_addr(wv.skip(i as int)) == first_entry_addr(wv),
        decreases ws.len() - i,
    {
        assert(wv.skip(i as int)[0] == ws@[i as int]@);
        assert(wv.skip(i as int).drop_first() =~= wv.skip(i + 1));
        let a = before_char_chars(&ws[i], '#');
        let b = before_char_chars(&a, '%');
        match ip_canonical(string_of(&b).as_str()) {
            Some(addr) => {
                return Some(addr);
            },
            None => {},
        }
        i += 1;
    }
    None
}

/// Chooses the nameserver from the output of `resolvectl dns`.
pub fn resolvectl_nameserver(text: &str) -> (r: Option<String>)
    ensures
        opt_view(r) == resolvectl_choice(text@),
{
    let lines = split_lines(&chars_of(text));
    let ghost lv = char_views(lines@);
    let colon: Vec<char> = vec![':'];
    assert(colon@ =~= seq![':']);
    let global_prefix = chars_of("Global:");
    let link_prefix = chars_of("Link ");
    let lo = chars_of("(lo)");
    let mut global: Option<String> = None;
    let mut i: usize = 0;
    assert(lv.skip(0) =~= lv);
    while i < lines.len()
        invariant
            i <= lines.len(),
            lv == char_views(lines@),
            lv == text_lines(text@),
            colon@ == seq![':'],
            global_prefix@ == "Global:"@,
            link_prefix@ == "Link "@,
            lo@ == "(lo)"@,
            resolvectl_scan(lv.skip(i as int), opt_view(global)) == resolvectl_choice(text@),
        decreases lines.len() - i,
    {
        let line = &lines[i];
        assert(lv.skip(i as int)[0] == line@);
        assert(lv.skip(i as int).drop_first() =~= lv.skip(i + 1));
        assert(line@.skip(0) =~= line@);
        match find_chars(line, &colon) {
            None => {},
            Some(p) => {
                proof {
                    crate::text::lemma_find_bound(line@, colon@);
                }
                let after = trim_chars(&crate::text::slice_chars(line, p + 1, line.len()));
                assert(line@.subrange(p + 1, line@.len() as int) =~= line@.skip(p + 1));
                if after.len() == 0 {
                } else if matches_at(line, 0, &global_prefix) {
                    global = first_entry_addr_exec(&split_words(&after, false));
                } else if matches_at(line, 0, &link_prefix) && find_chars(line, &lo).is_none() {
                    let found = first_entry_addr_exec(&split_words(&after, false));
                    if found.is_some() {
                        return found;
                    }
                }
            },
        }
        i += 1;
    }
    global
}

/// The nameserver named in the lines of `scutil --dns`: the address of the
/// first line that, trimmed, reads `nameserver[...] : ` followed by an IP address.
pub open spec fn scutil_scan(lines: Seq<Seq<char>>) -> Option<Seq<char>>
    decreases lines.len(),
{
    if lines.len() == 0 {
        None
    } else {
        let t = trim(lines[0]);
        let found = if starts_with(t, "nameserver["@) {
            let after = t.skip("nameserver["@.len() as int);
            match find(after, "] : "@) {
                Some(p) => ip_text(trim(after.skip(p + "] : "@.len()))),
                None => None,
            }
        } else {
            None
        };
        match found {
            Some(a) => Some(a),
            None => scutil_scan(lines.drop_first()),
        }
    }
}

/// The nameserver named in the output of `scutil --dns`.
pub open spec fn scutil_choice(text: Seq<char>) -> Option<Seq<char>> {
    scutil_scan(text_lines(text))
}

/// Finds the nameserver named in the output of `scutil --dns`.
pub fn scutil_nameserver(text: &str) -> (r: Option<String>)
    ensures
        opt_view(r) == scutil_choice(text@),
{
    let lines = split_lines(&chars_of(text));
    let ghost lv = char_views(lines@);
    let prefix = chars_of("nameserver[");
    let sep = chars_of("] : ");
    let mut i: usize = 0;
    assert(lv.skip(0) =~= lv);
    while i < lines.len()
        invariant
            i <= lines.len(),
            lv == char_views(lines@),
            lv == text_lines(text@),
            prefix@ == "nameserver["@,
            sep@ == "] : "@,
            scutil_scan(lv.skip(i as int)) == scutil_choice(text@),
        decreases lines.len() - i,
    {
        assert(lv.skip(i as int)[0] == lines@[i as int]@);
        assert(lv.skip(i as int).drop_first() =~= lv.skip(i + 1));
        let t = trim_chars(&lines[i]);
        assert(t@.skip(0) =~= t@);
        if matches_at(&t, 0, &prefix) {
            let after = crate::text::slice_chars(&t, prefix.len(), t.len());
            assert(after@ =~= t@.skip("nameserver["@.len() as int));
            match find_chars(&after, &sep) {
                Some(p) => {
                    proof {
                        crate::text::lemma_find_bound(after@, sep@);
                    }
                    let addr_chars = trim_chars(&crate::text::slice_chars(&after, p + sep.len(), after.len()));
                    assert(after@.subrange(p + sep@.len(), after@.len() as int) =~= after@.skip(p + "] : "@.len()));
                    match ip_canonical(string_of(&addr_chars).as_str()) {
                        Some(a) => {
                            return Some(a);
                        },
                        None => {},
                    }
                },
                None => {},
            }
        }
        i += 1;
    }
    None
}

/// Chooses the nameserver from the output of `resolvectl dns`, given whether
/// the command succeeded and what it wrote, which is decoded as UTF-8 with
/// invalid sequences replaced; a failed command names none.
pub fn resolvectl_dns(success: bool, stdout: &Vec<u8>) -> (r: Option<String>)
    ensures
        opt_view(r) == if success { resolvectl_choice(utf8_lossy(stdout@)) } else { None },
        success && valid_utf8(stdout@) ==> opt_view(r) == resolvectl_choice(decode_utf8(stdout@)),
{
    if !success {
        return None;
    }
    let text = from_utf8_lossy(stdout.as_slice());
    resolvectl_nameserver(text.as_str())
}

/// The address that a line of `resolvectl dns` offers the choice: after the
/// line's first `:`, the first entry that names an address, when the line is
/// the `Global:` line or a link line other than the loopback's.
pub open spec fn resolvectl_line_addr(line: Seq<char>) -> Option<Seq<char>> {
    match find(line, seq![':']) {
        None => None,
        Some(p) => {
            let after = trim(line.skip(p + 1));
            if after.len() > 0 && (starts_with(line, "Global:"@) || (starts_with(line, "Link "@) && !contains_seq(
                line,
                "(lo)"@,
            ))) {
                first_entry_addr(words(after, false))
            } else {
                None
            }
        },
    }
}

proof fn lemma_resolvectl_scan_none(lines: Seq<Seq<char>>)
    requires
        forall|i: int| 0 <= i < lines.len() ==> (#[trigger] resolvectl_line_addr(lines[i])) is None,
    ensures
        resolvectl_scan(lines, None) is None,
    decreases lines.len(),
{
    if lines.len() > 0 {
        let rest = lines.drop_first();
        assert(resolvectl_line_addr(lines[0]) is None);
        assert forall|i: int| 0 <= i < rest.len() implies (#[trigger] resolvectl_line_addr(rest[i])) is None by {
            assert(rest[i] == lines[i + 1]);
            assert(resolvectl_line_addr(lines[i + 1]) is None);
        }
        lemma_resolvectl_scan_none(rest);
    }
}

/// When no line of the output of `resolvectl dns` is a link line or the
/// `Global:` line that names an address, no nameserver is chosen.
pub proof fn resolvectl_without_address_line(text: Seq<char>)
    requires
        forall|i: int|
            0 <= i < text_lines(text).len() ==> (#[trigger] resolvectl_line_addr(text_lines(text)[i])) is None,
    ensures
        resolvectl_choice(text) is None,
{
    lemma_resolvectl_scan_none(text_lines(text));
}

/// Whether a line of `resolvectl dns` is the line of a link other than the
/// loopback.
pub open spec fn non_loopback_link(line: Seq<char>) -> bool {
    starts_with(line, "Link "@) && !contains_seq(line, "(lo)"@) && find(line, seq![':']) is Some
}

/// The entries that a line of `resolvectl dns` lists after its first `:`.
pub open spec fn line_entries(line: Seq<char>) -> Seq<Seq<char>> {
    words(trim(line.skip(find(line, seq![':'])->0 + 1)), false)
}

/// The address that an entry of `resolvectl dns` names, if it names one: the
/// entry cut at `#` and at `%`, read as an IP address.
pub open spec fn entry_ip(w: Seq<char>) -> Option<Seq<char>> {
    ip_text(before_char(before_char(w, '#'), '%'))
}

/// Whether some entry of a link line names an address.
pub open spec fn link_names_address(line: Seq<char>) -> bool {
    non_loopback_link(line) && exists|m: int| 0 <= m < line_entries(line).len() && (#[trigger] entry_ip(
        line_entries(line)[m],
    )) is Some
}

proof fn lemma_first_entry_addr_at(ws: Seq<Seq<char>>, m: int)
    requires
        0 <= m < ws.len(),
        entry_ip(ws[m]) is Some,
        forall|j: int| 0 <= j < m ==> (#[trigger] entry_ip(ws[j])) is None,
    ensures
        first_entry_addr(ws) == entry_ip(ws[m]),
    decreases m,
{
    if m > 0 {
        let rest = ws.drop_first();
        assert(entry_ip(ws[0]) is None);
        assert forall|j: int| 0 <= j < m - 1 implies (#[trigger] entry_ip(rest[j])) is None by {
            assert(rest[j] == ws[j + 1]);
            assert(entry_ip(ws[j + 1]) is None);
        }
        assert(rest[m - 1] == ws[m]);
        lemma_first_entry_addr_at(rest, m - 1);
    }
}

proof fn lemma_first_entry_addr_none(ws: Seq<Seq<char>>)
    requires
        forall|j: int| 0 <= j < ws.len() ==> (#[trigger] entry_ip(ws[j])) is None,
    ensures
        first_entry_addr(ws) is None,
    decreases ws.len(),
{
    if ws.len() > 0 {
        let rest = ws.drop_first();
        assert(entry_ip(ws[0]) is None);
        assert forall|j: int| 0 <= j < rest.len() implies (#[trigger] entry_ip(rest[j])) is None by {
            assert(rest[j] == ws[j + 1]);
            assert(entry_ip(ws[j + 1]) is None);
        }
        lemma_first_entry_addr_none(rest);
    }
}

proof fn lemma_resolvectl_scan_first_link(lines: Seq<Seq<char>>, global: Option<Seq<char>>, i: int, m: int)
    requires
        0 <= i < lines.len(),
        non_loopback_link(lines[i]),
        0 <= m < line_entries(lines[i]).len(),
        entry_ip(line_entries(lines[i])[m]) is Some,
        forall|j: int| 0 <= j < m ==> (#[trigger] entry_ip(line_entries(lines[i])[j])) is None,
        forall|k: int| 0 <= k < i ==> !link_names_address(#[trigger] lines[k]),
    ensures
        resolvectl_scan(lines, global) == entry_ip(line_entries(lines[i])[m]),
    decreases i,
{
    let line = lines[0];
    let rest = lines.drop_first();
    if i == 0 {
        let p = find(line, seq![':'])->0;
        let after = trim(line.skip(p + 1));
        assert(after.len() > 0) by {
            if after.len() == 0 {
                assert(words(after, false) =~= Seq::<Seq<char>>::empty());
            }
        }
        lemma_link_not_global(line);
        lemma_first_entry_addr_at(line_entries(line), m);
    } else {
        assert(!link_names_address(line));
        if non_loopback_link(line) {
            assert forall|j: int| 0 <= j < line_entries(line).len() implies (#[trigger] entry_ip(
                line_entries(line)[j],
            )) is None by {
                if entry_ip(line_entries(line)[j]) is Some {
                    assert(link_names_address(line));
                }
            }
            lemma_first_entry_addr_none(line_entries(line));
        }
        assert forall|k: int| 0 <= k < i - 1 implies !link_names_address(#[trigger] rest[k]) by {
            assert(rest[k] == lines[k + 1]);
            assert(!link_names_address(lines[k + 1]));
        }
        assert(rest[i - 1] == lines[i]);
        match find(line, seq![':']) {
            None => lemma_resolvectl_scan_first_link(rest, global, i - 1, m),
            Some(p) => {
                let after = trim(line.skip(p + 1));
                if after.len() == 0 {
                    lemma_resolvectl_scan_first_link(rest, global, i - 1, m);
                } else if starts_with(line, "Global:"@) {
                    lemma_resolvectl_scan_first_link(rest, first_entry_addr(words(after, false)), i - 1, m);
                } else {
                    lemma_resolvectl_scan_first_link(rest, global, i - 1, m);
                }
            },
        }
    }
}

/// The nameserver chosen from the output of `resolvectl dns` is, when some
/// link line other than the loopback's lists an address, the first address
/// listed on the first such line, whatever the lines before it (the `Global:`
/// line among them) and after it say.
pub proof fn resolvectl_first_link_address_wins(text: Seq<char>, i: int, m: int)
    requires
        0 <= i < text_lines(text).len(),
        non_loopback_link(text_lines(text)[i]),
        0 <= m < line_entries(text_lines(text)[i]).len(),
        entry_ip(line_entries(text_lines(text)[i])[m]) is Some,
        forall|j: int| 0 <= j < m ==> (#[trigger] entry_ip(line_entries(text_lines(text)[i])[j])) is None,
        forall|k: int| 0 <= k < i ==> !link_names_address(#[trigger] text_lines(text)[k]),
    ensures
        resolvectl_choice(text) == entry_ip(line_entries(text_lines(text)[i])[m]),
{
    lemma_resolvectl_scan_first_link(text_lines(text), None, i, m);
}

/// Whether a line of `resolvectl dns` is a `Global:` line that lists anything.
pub open spec fn global_line(line: Seq<char>) -> bool {
    starts_with(line, "Global:"@) && find(line, seq![':']) is Some && trim(
        line.skip(find(line, seq![':'])->0 + 1),
    ).len() > 0
}

/// A line that starts with `Link ` does not start with `Global:`.
proof fn lemma_link_not_global(line: Seq<char>)
    requires
        starts_with(line, "Link "@),
    ensures
        !starts_with(line, "Global:"@),
{
    reveal_strlit("Global:");
    reveal_strlit("Link ");
    assert(line.subrange(0, 5)[0] == line[0]);
    if starts_with(line, "Global:"@) {
        assert(line.subrange(0, 7)[0] == line[0]);
    }
}

/// With no link line naming an address and no `Global:` line listing
/// anything, the scan keeps the global server it has.
proof fn lemma_resolvectl_scan_keeps(lines: Seq<Seq<char>>, global: Option<Seq<char>>)
    requires
        forall|k: int| 0 <= k < lines.len() ==> !link_names_address(#[trigger] lines[k]),
        forall|k: int| 0 <= k < lines.len() ==> !global_line(#[trigger] lines[k]),
    ensures
        resolvectl_scan(lines, global) == global,
    decreases lines.len(),
{
    if lines.len() > 0 {
        let line = lines[0];
        let rest = lines.drop_first();
        assert(!link_names_address(line) && !global_line(line));
        lemma_no_link_address(line);
        assert forall|k: int| 0 <= k < rest.len() implies !link_names_address(#[trigger] rest[k]) && !global_line(
            rest[k],
        ) by {
            assert(rest[k] == lines[k + 1]);
            assert(!link_names_address(lines[k + 1]) && !global_line(lines[k + 1]));
        }
        lemma_resolvectl_scan_keeps(rest, global);
        match find(line, seq![':']) {
            None => {},
            Some(p) => {
                let after = trim(line.skip(p + 1));
                assert(!(after.len() > 0 && starts_with(line, "Global:"@)));
            },
        }
    }
}

/// A link line that names no address gives none.
proof fn lemma_no_link_address(line: Seq<char>)
    requires
        !link_names_address(line),
    ensures
        non_loopback_link(line) ==> first_entry_addr(line_entries(line)) is None,
{
    if non_loopback_link(line) {
        assert forall|j: int| 0 <= j < line_entries(line).len() implies (#[trigger] entry_ip(line_entries(line)[j]))
            is None by {
            if entry_ip(line_entries(line)[j]) is Some {
                assert(link_names_address(line));
            }
        }
        lemma_first_entry_addr_none(line_entries(line));
    }
}

proof fn lemma_resolvectl_scan_last_global(lines: Seq<Seq<char>>, global: Option<Seq<char>>, g: int)
    requires
        0 <= g < lines.len(),
        global_line(lines[g]),
        forall|k: int| 0 <= k < lines.len() ==> !link_names_address(#[trigger] lines[k]),
        forall|k: int| g < k < lines.len() ==> !global_line(#[trigger] lines[k]),
    ensures
        resolvectl_scan(lines, global) == first_entry_addr(line_entries(lines[g])),
    decreases g,
{
    let line = lines[0];
    let rest = lines.drop_first();
    lemma_no_link_address(line);
    assert forall|k: int| 0 <= k < rest.len() implies !link_names_address(#[trigger] rest[k]) by {
        assert(rest[k] == lines[k + 1]);
        assert(!link_names_address(lines[k + 1]));
    }
    if g == 0 {
        let p = find(line, seq![':'])->0;
        let after = trim(line.skip(p + 1));
        assert forall|k: int| 0 <= k < rest.len() implies !global_line(#[trigger] rest[k]) by {
            assert(rest[k] == lines[k + 1]);
            assert(!global_line(lines[k + 1]));
        }
        lemma_resolvectl_scan_keeps(rest, first_entry_addr(words(after, false)));
    } else {
        assert forall|k: int| g - 1 < k < rest.len() implies !global_line(#[trigger] rest[k]) by {
            assert(rest[k] == lines[k + 1]);
            assert(!global_line(lines[k + 1]));
        }
        assert(rest[g - 1] == lines[g]);
        match find(line, seq![':']) {
            None => lemma_resolvectl_scan_last_global(rest, global, g - 1),
            Some(p) => {
                let after = trim(line.skip(p + 1));
                if after.len() == 0 {
                    lemma_resolvectl_scan_last_global(rest, global, g - 1);
                } else if starts_with(line, "Global:"@) {
                    lemma_resolvectl_scan_last_global(rest, first_entry_addr(words(after, false)), g - 1);
                } else {
                    lemma_resolvectl_scan_last_global(rest, global, g - 1);
                }
            },
        }
    }
}

/// When no link line other than the loopback's lists an address, the
/// nameserver chosen from the output of `resolvectl dns` comes from the last
/// `Global:` line that lists anything: its first address, or none when it
/// names no address, whatever the `Global:` lines before it named; with no
/// such line, there is none.
pub proof fn resolvectl_falls_back_to_last_global(text: Seq<char>)
    requires
        forall|k: int| 0 <= k < text_lines(text).len() ==> !link_names_address(#[trigger] text_lines(text)[k]),
    ensures
        forall|g: int, m: int|
            0 <= g < text_lines(text).len() && global_line(text_lines(text)[g]) && (forall|k: int|
                g < k < text_lines(text).len() ==> !global_line(#[trigger] text_lines(text)[k])) && 0 <= m
                < line_entries(text_lines(text)[g]).len() && entry_ip(line_entries(text_lines(text)[g])[m]) is Some
                && (forall|j: int| 0 <= j < m ==> (#[trigger] entry_ip(line_entries(text_lines(text)[g])[j])) is None)
                ==> resolvectl_choice(text) == #[trigger] entry_ip(line_entries(text_lines(text)[g])[m]),
        forall|g: int|
            0 <= g < text_lines(text).len() && #[trigger] global_line(text_lines(text)[g]) && (forall|k: int|
                g < k < text_lines(text).len() ==> !global_line(#[trigger] text_lines(text)[k])) && (forall|j: int|
                0 <= j < line_entries(text_lines(text)[g]).len() ==> (#[trigger] entry_ip(
                    line_entries(text_lines(text)[g])[j],
                )) is None) ==> resolvectl_choice(text) is None,
        (forall|k: int| 0 <= k < text_lines(text).len() ==> !global_line(#[trigger] text_lines(text)[k]))
            ==> resolvectl_choice(text) is None,
{
    let lines = text_lines(text);
    assert forall|g: int, m: int|
        0 <= g < lines.len() && global_line(lines[g]) && (forall|k: int|
            g < k < lines.len() ==> !global_line(#[trigger] lines[k])) && 0 <= m < line_entries(lines[g]).len()
            && entry_ip(line_entries(lines[g])[m]) is Some && (forall|j: int| 0 <= j < m ==> (#[trigger] entry_ip(line_entries(lines[g])[j])) is None)
        implies resolvectl_choice(text) == #[trigger] entry_ip(line_entries(lines[g])[m]) by {
        lemma_resolvectl_scan_last_global(lines, None, g);
        lemma_first_entry_addr_at(line_entries(lines[g]), m);
    }
    assert forall|g: int|
        0 <= g < lines.len() && #[trigger] global_line(lines[g]) && (forall|k: int|
            g < k < lines.len() ==> !global_line(#[trigger] lines[k])) && (forall|j: int|
            0 <= j < line_entries(lines[g]).len() ==> (#[trigger] entry_ip(line_entries(lines[g])[j])) is None)
        implies resolvectl_choice(text) is None by {
        lemma_resolvectl_scan_last_global(lines, None, g);
        lemma_first_entry_addr_none(line_entries(lines[g]));
    }
    if forall|k: int| 0 <= k < lines.len() ==> !global_line(#[trigger] lines[k]) {
        lemma_resolvectl_scan_keeps(lines, None);
    }
}

/// The address that a line of `scutil --dns` names: the line, trimmed, reads
/// `nameserver[`, then anything up to the first `] : `, then an IP address
/// (trimmed), given in canonical form.
pub open spec fn scutil_line_addr(line: Seq<char>) -> Option<Seq<char>> {
    let t = trim(line);
    if starts_with(t, "nameserver["@) {
        let after = t.skip("nameserver["@.len() as int);
        match find(after, "] : "@) {
            Some(p) => ip_text(trim(after.skip(p + "] : "@.len()))),
            None => None,
        }
    } else {
        None
    }
}

proof fn lemma_scutil_scan_first(lines: Seq<Seq<char>>, i: int)
    requires
        0 <= i <= lines.len(),
        forall|k: int| 0 <= k < i ==> (#[trigger] scutil_line_addr(lines[k])) is None,
    ensures
        scutil_scan(lines) == if i < lines.len() { match scutil_line_addr(lines[i]) {
            Some(a) => Some(a),
            None => scutil_scan(lines.skip(i + 1)),
        } } else { None },
    decreases i,
{
    if i == 0 {
        if lines.len() > 0 {
            assert(lines.drop_first() =~= lines.skip(1));
        }
    } else {
        let rest = lines.drop_first();
        assert(scutil_line_addr(lines[0]) is None);
        assert forall|k: int| 0 <= k < i - 1 implies (#[trigger] scutil_line_addr(rest[k])) is None by {
            assert(rest[k] == lines[k + 1]);
            assert(scutil_line_addr(lines[k + 1]) is None);
        }
        lemma_scutil_scan_first(rest, i - 1);
        if i < lines.len() {
            assert(rest[i - 1] == lines[i]);
            assert(rest.skip(i) =~= lines.skip(i + 1));
        }
    }
}

/// The nameserver found in the output of `scutil --dns` is the address named
/// by its first line that names one, and there is none when no line does.
pub proof fn scutil_first_nameserver_line(text: Seq<char>, i: int)
    requires
        0 <= i <= text_lines(text).len(),
        forall|k: int| 0 <= k < i ==> (#[trigger] scutil_line_addr(text_lines(text)[k])) is None,
        i < text_lines(text).len() ==> scutil_line_addr(text_lines(text)[i]) is Some,
    ensures
        scutil_choice(text) == if i < text_lines(text).len() {
            scutil_line_addr(text_lines(text)[i])
        } else {
            None
        },
{
    lemma_scutil_scan_first(text_lines(text), i);
}

/// Finds the nameserver in the output of `scutil --dns`, given whether the
/// command succeeded and what it wrote, which is decoded as UTF-8 with invalid
/// sequences replaced; a failed command names none.
pub fn scutil_dns(success: bool, stdout: &Vec<u8>) -> (r: Option<String>)
    ensures
        opt_view(r) == if success { scutil_choice(utf8_lossy(stdout@)) } else { None },
        success && valid_utf8(stdout@) ==> opt_view(r) == scutil_choice(decode_utf8(stdout@)),
{
    if !success {
        return None;
    }
    let text = from_utf8_lossy(stdout.as_slice());
    scutil_nameserver(text.as_str())
}

/// What the nameserver choice reads of a network adapter: whether it is up,
/// whether it has a gateway, and its IP addresses and DNS servers, each in
/// canonical text form.
pub struct AdapterInfo {
    /// Whether the adapter's operational status is up.
    pub up: bool,
    /// Whether the adapter has at least one gateway.
    pub has_gateway: bool,
    /// The adapter's IP addresses.
    pub ip_addresses: Vec<String>,
    /// The adapter's DNS servers, in order.
    pub dns_servers: Vec<String>,
}

/// Whether an adapter is up and has a gateway.
pub open spec fn is_active(a: AdapterInfo) -> bool {
    a.up && a.has_gateway
}

/// Whether some adapter is up and has a gateway.
pub open spec fn any_active(adapters: Seq<AdapterInfo>) -> bool {
    exists|i: int| 0 <= i < adapters.len() && is_active(#[trigger] adapters[i])
}

/// The first DNS server of the adapters, in order, that are active (when
/// `active_only` holds) or up (otherwise).
pub open spec fn first_dns(adapters: Seq<AdapterInfo>, active_only: bool) -> Option<Seq<char>>
    decreases adapters.len(),
{
    if adapters.len() == 0 {
        None
    } else {
        let a = adapters[0];
        if (if active_only { is_active(a) } else { a.up }) && a.dns_servers@.len() > 0 {
            Some(a.dns_servers@[0]@)
        } else {
            first_dns(adapters.drop_first(), active_only)
        }
    }
}

/// The first DNS server of the first active adapter that has the primary IP
/// address, if that adapter has any.
pub open spec fn primary_dns(adapters: Seq<AdapterInfo>, primary: Seq<char>) -> Option<Seq<char>>
    decreases adapters.len(),
{
    if adapters.len() == 0 {
        None
    } else {
        let a = adapters[0];
        if is_active(a) && views(a.ip_addresses@).contains(primary) {
            if a.dns_servers@.len() > 0 {
                Some(a.dns_servers@[0]@)
            } else {
                None
            }
        } else {
            primary_dns(adapters.drop_first(), primary)
        }
    }
}

/// The nameserver chosen from the network adapters on Windows: the first DNS
/// server of the active adapter that has the primary IP address (consulted only
/// when some adapter is active); else the first DNS server of an active adapter;
/// else the first DNS server of an adapter that is up.
pub open spec fn adapter_choice(adapters: Seq<AdapterInfo>, primary: Option<Seq<char>>) -> Option<Seq<char>> {
    let by_primary = if any_active(adapters) {
        match primary {
            Some(p) => primary_dns(adapters, p),
            None => None,
        }
    } else {
        None
    };
    match by_primary {
        Some(d) => Some(d),
        None => match first_dns(adapters, true) {
            Some(d) => Some(d),
            None => first_dns(adapters, false),
        },
    }
}

/// Whether an adapter can give the nameserver: it is up, has a gateway when
/// `with_gateway` is asked for, and has a DNS server.
pub open spec fn adapter_serves(a: AdapterInfo, with_gateway: bool) -> bool {
    a.up && (with_gateway ==> a.has_gateway) && a.dns_servers@.len() > 0
}

proof fn lemma_first_dns_at(adapters: Seq<AdapterInfo>, active_only: bool, k: int)
    requires
        0 <= k < adapters.len(),
        adapter_serves(adapters[k], active_only),
        forall|j: int| 0 <= j < k ==> !adapter_serves(#[trigger] adapters[j], active_only),
    ensures
        first_dns(adapters, active_only) == Some(adapters[k].dns_servers@[0]@),
    decreases k,
{
    if k > 0 {
        let rest = adapters.drop_first();
        assert(!adapter_serves(adapters[0], active_only));
        assert forall|j: int| 0 <= j < k - 1 implies !adapter_serves(#[trigger] rest[j], active_only) by {
            assert(rest[j] == adapters[j + 1]);
            assert(!adapter_serves(adapters[j + 1], active_only));
        }
        assert(rest[k - 1] == adapters[k]);
        lemma_first_dns_at(rest, active_only, k - 1);
    }
}

proof fn lemma_first_dns_none(adapters: Seq<AdapterInfo>, active_only: bool)
    requires
        forall|j: int| 0 <= j < adapters.len() ==> !adapter_serves(#[trigger] adapters[j], active_only),
    ensures
        first_dns(adapters, active_only) is None,
    decreases adapters.len(),
{
    if adapters.len() > 0 {
        let rest = adapters.drop_first();
        assert(!adapter_serves(adapters[0], active_only));
        assert forall|j: int| 0 <= j < rest.len() implies !adapter_serves(#[trigger] rest[j], active_only) by {
            assert(rest[j] == adapters[j + 1]);
            assert(!adapter_serves(adapters[j + 1], active_only));
        }
        lemma_first_dns_none(rest, active_only);
    }
}

/// Without the primary IP address to go by, the nameserver chosen among the
/// adapters is the first DNS server of the first adapter that is up, has a
/// gateway and has a DNS server; when no adapter has all three, it is the first
/// DNS server of the first adapter that is up and has one; and when there is
/// no such adapter either, there is none.
pub proof fn adapter_choice_without_primary(adapters: Seq<AdapterInfo>)
    ensures
        forall|k: int|
            0 <= k < adapters.len() && adapter_serves(adapters[k], true) && (forall|j: int|
                0 <= j < k ==> !adapter_serves(#[trigger] adapters[j], true)) ==> adapter_choice(adapters, None)
                == Some(#[trigger] adapters[k].dns_servers@[0]@),
        (forall|j: int| 0 <= j < adapters.len() ==> !adapter_serves(#[trigger] adapters[j], true)) ==> forall|k: int|
            0 <= k < adapters.len() && adapter_serves(adapters[k], false) && (forall|j: int|
                0 <= j < k ==> !adapter_serves(#[trigger] adapters[j], false)) ==> adapter_choice(adapters, None)
                == Some(#[trigger] adapters[k].dns_servers@[0]@),
        (forall|j: int| 0 <= j < adapters.len() ==> !adapter_serves(#[trigger] adapters[j], false)) ==> adapter_choice(
            adapters,
            None,
        ) is None,
{
    assert forall|k: int|
        0 <= k < adapters.len() && adapter_serves(adapters[k], true) && (forall|j: int|
            0 <= j < k ==> !adapter_serves(#[trigger] adapters[j], true)) implies adapter_choice(adapters, None)
        == Some(#[trigger] adapters[k].dns_servers@[0]@) by {
        lemma_first_dns_at(adapters, true, k);
    }
    if forall|j: int| 0 <= j < adapters.len() ==> !adapter_serves(#[trigger] adapters[j], true) {
        lemma_first_dns_none(adapters, true);
        assert forall|k: int|
            0 <= k < adapters.len() && adapter_serves(adapters[k], false) && (forall|j: int|
                0 <= j < k ==> !adapter_serves(#[trigger] adapters[j], false)) implies adapter_choice(adapters, None)
            == Some(#[trigger] adapters[k].dns_servers@[0]@) by {
            lemma_first_dns_at(adapters, false, k);
        }
    }
    if forall|j: int| 0 <= j < adapters.len() ==> !adapter_serves(#[trigger] adapters[j], false) {
        assert forall|j: int| 0 <= j < adapters.len() implies !adapter_serves(#[trigger] adapters[j], true) by {
            assert(!adapter_serves(adapters[j], false));
        }
        lemma_first_dns_none(adapters, true);
        lemma_first_dns_none(adapters, false);
    }
}

/// Whether an adapter is up, has a gateway and has the given IP address.
pub open spec fn active_with_ip(a: AdapterInfo, ip: Seq<char>) -> bool {
    a.up && a.has_gateway && exists|m: int| 0 <= m < a.ip_addresses@.len() && #[trigger] a.ip_addresses@[m]@ == ip
}

proof fn lemma_primary_dns_at(adapters: Seq<AdapterInfo>, ip: Seq<char>, k: int)
    requires
        0 <= k < adapters.len(),
        active_with_ip(adapters[k], ip),
        forall|j: int| 0 <= j < k ==> !active_with_ip(#[trigger] adapters[j], ip),
    ensures
        primary_dns(adapters, ip) == if adapters[k].dns_servers@.len() > 0 {
            Some(adapters[k].dns_servers@[0]@)
        } else {
            None
        },
    decreases k,
{
    let a = adapters[0];
    if k == 0 {
        let m = choose|m: int| 0 <= m < a.ip_addresses@.len() && #[trigger] a.ip_addresses@[m]@ == ip;
        assert(views(a.ip_addresses@)[m] == ip);
    } else {
        let rest = adapters.drop_first();
        assert(!active_with_ip(a, ip));
        if is_active(a) && views(a.ip_addresses@).contains(ip) {
            let m = choose|m: int| 0 <= m < views(a.ip_addresses@).len() && views(a.ip_addresses@)[m] == ip;
            assert(a.ip_addresses@[m]@ == ip);
        }
        assert forall|j: int| 0 <= j < k - 1 implies !active_with_ip(#[trigger] rest[j], ip) by {
            assert(rest[j] == adapters[j + 1]);
            assert(!active_with_ip(adapters[j + 1], ip));
        }
        assert(rest[k - 1] == adapters[k]);
        lemma_primary_dns_at(rest, ip, k - 1);
    }
}

proof fn lemma_primary_dns_none(adapters: Seq<AdapterInfo>, ip: Seq<char>)
    requires
        forall|j: int| 0 <= j < adapters.len() ==> !active_with_ip(#[trigger] adapters[j], ip),
    ensures
        primary_dns(adapters, ip) is None,
    decreases adapters.len(),
{
    if adapters.len() > 0 {
        let a = adapters[0];
        let rest = adapters.drop_first();
        assert(!active_with_ip(a, ip));
        if is_active(a) && views(a.ip_addresses@).contains(ip) {
            let m = choose|m: int| 0 <= m < views(a.ip_addresses@).len() && views(a.ip_addresses@)[m] == ip;
            assert(a.ip_addresses@[m]@ == ip);
        }
        assert forall|j: int| 0 <= j < rest.len() implies !active_with_ip(#[trigger] rest[j], ip) by {
            assert(rest[j] == adapters[j + 1]);
            assert(!active_with_ip(adapters[j + 1], ip));
        }
        lemma_primary_dns_none(rest, ip);
    }
}

/// The primary IP address changes the choice only through an adapter that is
/// up, has a gateway, has that address and has a DNS server: when no adapter
/// is up with a gateway and that address, or the first such has no DNS
/// server, the choice is the one made without it.
pub proof fn primary_without_dns_changes_nothing(adapters: Seq<AdapterInfo>, ip: Seq<char>)
    ensures
        (forall|j: int| 0 <= j < adapters.len() ==> !active_with_ip(#[trigger] adapters[j], ip)) ==> adapter_choice(
            adapters,
            Some(ip),
        ) == adapter_choice(adapters, None),
        forall|k: int|
            0 <= k < adapters.len() && active_with_ip(adapters[k], ip) && (forall|j: int|
                0 <= j < k ==> !active_with_ip(#[trigger] adapters[j], ip)) && (#[trigger] adapters[k].dns_servers@.len())
                == 0 ==> adapter_choice(adapters, Some(ip)) == adapter_choice(adapters, None),
{
    if forall|j: int| 0 <= j < adapters.len() ==> !active_with_ip(#[trigger] adapters[j], ip) {
        lemma_primary_dns_none(adapters, ip);
    }
    assert forall|k: int|
        0 <= k < adapters.len() && active_with_ip(adapters[k], ip) && (forall|j: int|
            0 <= j < k ==> !active_with_ip(#[trigger] adapters[j], ip)) && (#[trigger] adapters[k].dns_servers@.len())
            == 0 implies adapter_choice(adapters, Some(ip)) == adapter_choice(adapters, None) by {
        lemma_primary_dns_at(adapters, ip, k);
    }
}

/// With the primary IP address, the nameserver chosen among the adapters is
/// the first DNS server of the first adapter that is up, has a gateway and has
/// that address, when it has a DNS server.
pub proof fn adapter_choice_by_primary(adapters: Seq<AdapterInfo>, ip: Seq<char>, k: int)
    requires
        0 <= k < adapters.len(),
        active_with_ip(adapters[k], ip),
        forall|j: int| 0 <= j < k ==> !active_with_ip(#[trigger] adapters[j], ip),
        adapters[k].dns_servers@.len() > 0,
    ensures
        adapter_choice(adapters, Some(ip)) == Some(adapters[k].dns_servers@[0]@),
{
    lemma_primary_dns_at(adapters, ip, k);
    assert(is_active(adapters[k]));
}

/// Whether some adapter is up and has a gateway; only then is the primary IP
/// address worth finding.
pub fn has_active_adapter(adapters: &Vec<AdapterInfo>) -> (r: bool)
    ensures
        r == any_active(adapters@),
{
    let mut i: usize = 0;
    while i < adapters.len()
        invariant
            i <= adapters.len(),
            forall|j: int| 0 <= j < i ==> !is_active(#[trigger] adapters@[j]),
        decreases adapters.len() - i,
    {
        if adapters[i].up && adapters[i].has_gateway {
            assert(is_active(adapters@[i as int]));
            return true;
        }
        i += 1;
    }
    false
}

/// Whether a list of strings holds one equal to `s`.
fn contains_string(v: &Vec<String>, s: &String) -> (r: bool)
    ensures
        r == views(v@).contains(s@),
{
    let mut i: usize = 0;
    while i < v.len()
        invariant
            i <= v.len(),
            forall|j: int| 0 <= j < i ==> v@[j]@ != s@,
        decreases v.len() - i,
    {
        if v[i] == *s {
            assert(views(v@)[i as int] == s@);
            return true;
        }
        i += 1;
    }
    assert forall|j: int| 0 <= j < views(v@).len() implies views(v@)[j] != s@ by {
        assert(views(v@)[j] == v@[j]@);
    }
    false
}

/// Finds the first DNS server of the adapters that are active or up.
fn first_dns_exec(adapters: &Vec<AdapterInfo>, active_only: bool) -> (r: Option<String>)
    ensures
        opt_view(r) == first_dns(adapters@, active_only),
{
    let mut i: usize = 0;
    assert(adapters@.skip(0) =~= adapters@);
    while i < adapters.len()
        invariant
            i <= adapters.len(),
            first_dns(adapters@.skip(i as int), active_only) == first_dns(adapters@, active_only),
        decreases adapters.len() - i,
    {
        assert(adapters@.skip(i as int)[0] == adapters@[i as int]);
        assert(adapters@.skip(i as int).drop_first() =~= adapters@.skip(i + 1));
        let a = &adapters[i];
        let eligible = if active_only { a.up && a.has_gateway } else { a.up };
        if eligible && a.dns_servers.len() > 0 {
            return Some(a.dns_servers[0].clone());
        }
        i += 1;
    }
    None
}

/// Finds the DNS server of the active adapter that has the primary IP address.
fn primary_dns_exec(adapters: &Vec<AdapterInfo>, primary: &String) -> (r: Option<String>)
    ensures
        opt_view(r) == primary_dns(adapters@, primary@),
{
    let mut i: usize = 0;
    assert(adapters@.skip(0) =~= adapters@);
    while i < adapters.len()
        invariant
            i <= adapters.len(),
            primary_dns(adapters@.skip(i as int), primary@) == primary_dns(adapters@, primary@),
        decreases adapters.len() - i,
    {
        assert(adapters@.skip(i as int)[0] == adapters@[i as int]);
        assert(adapters@.skip(i as int).drop_first() =~= adapters@.skip(i + 1));
        let a = &adapters[i];
        if a.up && a.has_gateway && contains_string(&a.ip_addresses, primary) {
            if a.dns_servers.len() > 0 {
                return Some(a.dns_servers[0].clone());
            } else {
                return None;
            }
        }
        i += 1;
    }
    None
}

/// Chooses the nameserver from the network adapters on Windows, given the
/// primary IP address of the machine where it could be found.
pub fn adapter_nameserver(adapters: &Vec<AdapterInfo>, primary_ip: &Option<String>) -> (r: Option<String>)
    ensures
        opt_view(r) == adapter_choice(adapters@, opt_view(*primary_ip)),
{
    let mut by_primary: Option<String> = None;
    if has_active_adapter(adapters) {
        match primary_ip {
            Some(p) => {
                by_primary = primary_dns_exec(adapters, p);
            },
            None => {},
        }
    }
    match by_primary {
        Some(d) => Some(d),
        None => match first_dns_exec(adapters, true) {
            Some(d) => Some(d),
            None => first_dns_exec(adapters, false),
        },
    }
}

/// The platform dog runs on, as far as finding the system's nameserver goes.
#[derive(Clone, Copy, Debug, PartialEq, Eq, Structural)]
pub enum Platform {
    /// A Unix-like system: resolver files and tools are consulted in turn.
    Unix,
    /// Windows: the network adapters are consulted.
    Windows,
    /// Any other platform: the nameserver cannot be found.
    Other,
}

/// A place where the system keeps its nameserver configuration.
#[derive(Clone, Copy, Debug, PartialEq, Eq, Structural)]
pub enum NameserverSource {
    /// The file `/etc/resolv.conf`.
    ResolvConf,
    /// The output of `resolvectl dns` (systemd-resolved).
    Resolvectl,
    /// The file `/run/systemd/resolve/resolv.conf`.
    SystemdResolvConf,
    /// The file `/run/systemd/resolve/stub-resolv.conf`.
    SystemdStubResolvConf,
    /// The output of `scutil --dns` (macOS).
    Scutil,
    /// The network adapters of Windows.
    Adapters,
}

/// What consulting a nameserver source gave.
#[derive(Debug)]
pub enum SourceReply {
    /// The source names this nameserver, with this search list.
    Found(String, Vec<String>),
    /// The source names no nameserver, or could not be read.
    NotFound,
    /// The source could not be read, for the reason displayed.
    Failed(String),
}

/// The plain-value model of a `SourceReply`.
pub enum ReplyModel {
    Found(Seq<char>, Seq<Seq<char>>),
    NotFound,
    Failed(Seq<char>),
}

impl SourceReply {
    /// The plain-value model of this reply.
    pub open spec fn model(&self) -> ReplyModel {
        match self {
            SourceReply::Found(s, sl) => ReplyModel::Found(s@, views(sl@)),
            SourceReply::NotFound => ReplyModel::NotFound,
            SourceReply::Failed(e) => ReplyModel::Failed(e@),
        }
    }
}

/// A step of obtaining a resolver: a source to consult next, or the outcome.
#[derive(Debug)]
pub enum LookupStep {
    /// Consult this source, and hand its reply to `next_lookup_step`.
    Query(NameserverSource),
    /// The lookup is over.
    Done(Result<Resolver, ResolverLookupError>),
}

/// The plain-value model of a `LookupStep`.
pub enum StepModel {
    Query(NameserverSource),
    Resolved(Seq<char>, Seq<Seq<char>>),
    Failed(LookupErrorModel),
}

impl LookupStep {
    /// The plain-value model of this step.
    pub open spec fn model(&self) -> StepModel {
        match self {
            LookupStep::Query(s) => StepModel::Query(*s),
            LookupStep::Done(Ok(r)) => StepModel::Resolved(r.nameserver@, views(r.search_list@)),
            LookupStep::Done(Err(e)) => StepModel::Failed(e.model()),
        }
    }
}

/// The source to consult after this one, if there is one.
pub open spec fn next_source(s: NameserverSource) -> Option<NameserverSource> {
    match s {
        NameserverSource::ResolvConf => Some(NameserverSource::Resolvectl),
        NameserverSource::Resolvectl => Some(NameserverSource::SystemdResolvConf),
        NameserverSource::SystemdResolvConf => Some(NameserverSource::SystemdStubResolvConf),
        NameserverSource::SystemdStubResolvConf => Some(NameserverSource::Scutil),
        NameserverSource::Scutil => None,
        NameserverSource::Adapters => None,
    }
}

/// The nameserver used when the system names none.
pub open spec fn fallback_nameserver() -> Seq<char> {
    "1.1.1.1"@
}

/// The fallback nameserver is an IPv4 address in canonical text.
pub proof fn fallback_is_canonical_ip()
    ensures
        ip_text(fallback_nameserver()) == Some(fallback_nameserver()),
{
    reveal_strlit("1.1.1.1");
    let o = seq![1u8, 1u8, 1u8, 1u8];
    assert(crate::text::decimal(1) =~= seq!['1']);
    assert(ipv4_text(o) =~= fallback_nameserver());
    ipv4_text_reads_back(o);
}

/// Where a reply from a source leads: a found nameserver ends the lookup with
/// the search list that came with it; a failure to read the Windows adapters ends it with
/// that error; anything else moves on to the next source, or, after the last,
/// ends the lookup with the fallback nameserver.
pub open spec fn step_model(source: NameserverSource, reply: ReplyModel) -> StepModel {
    match reply {
        ReplyModel::Found(ns, sl) => StepModel::Resolved(ns, sl),
        ReplyModel::Failed(e) if source == NameserverSource::Adapters => StepModel::Failed(LookupErrorModel::Windows(e)),
        _ => match next_source(source) {
            Some(n) => StepModel::Query(n),
            None => StepModel::Resolved(fallback_nameserver(), seq![]),
        },
    }
}

/// The first step of finding the system's nameserver on a platform.
pub open spec fn first_step(platform: Platform) -> StepModel {
    match platform {
        Platform::Unix => StepModel::Query(NameserverSource::ResolvConf),
        Platform::Windows => StepModel::Query(NameserverSource::Adapters),
        Platform::Other => StepModel::Failed(LookupErrorModel::UnsupportedPlatform),
    }
}

impl ResolverType {
    /// Obtains a resolver by the means specified in this type: a given
    /// nameserver is used as it is, with no search list; the system default is
    /// looked up, beginning with the step returned here.
    pub fn obtain(self, platform: Platform) -> (step: LookupStep)
        ensures
            step.model() == match self {
                ResolverType::Specific(ns) => StepModel::Resolved(ns@, seq![]),
                ResolverType::SystemDefault => first_step(platform),
            },
    {
        match self {
            ResolverType::SystemDefault => match platform {
                Platform::Unix => LookupStep::Query(NameserverSource::ResolvConf),
                Platform::Windows => LookupStep::Query(NameserverSource::Adapters),
                Platform::Other => LookupStep::Done(Err(ResolverLookupError::UnsupportedPlatform)),
            },
            ResolverType::Specific(nameserver) => {
                let search_list: Vec<String> = Vec::new();
                assert(views(search_list@) =~= Seq::<Seq<char>>::empty());
                LookupStep::Done(Ok(Resolver { nameserver, search_list }))
            },
        }
    }
}

/// Decides where the lookup of the system's nameserver goes after a source
/// has been consulted.
pub fn next_lookup_step(source: NameserverSource, reply: SourceReply) -> (step: LookupStep)
    ensures
        step.model() == step_model(source, reply.model()),
{
    let empty: Vec<String> = Vec::new();
    assert(views(empty@) =~= Seq::<Seq<char>>::empty());
    match reply {
        SourceReply::Found(ns, search_list) => LookupStep::Done(Ok(Resolver { nameserver: ns, search_list })),
        SourceReply::Failed(e) if source == NameserverSource::Adapters => LookupStep::Done(
            Err(ResolverLookupError::Windows(e)),
        ),
        _ => match source {
            NameserverSource::ResolvConf => LookupStep::Query(NameserverSource::Resolvectl),
            NameserverSource::Resolvectl => LookupStep::Query(NameserverSource::SystemdResolvConf),
            NameserverSource::SystemdResolvConf => LookupStep::Query(NameserverSource::SystemdStubResolvConf),
            NameserverSource::SystemdStubResolvConf => LookupStep::Query(NameserverSource::Scutil),
            NameserverSource::Scutil | NameserverSource::Adapters => {
                let fallback = string_of(&chars_of("1.1.1.1"));
                LookupStep::Done(Ok(Resolver { nameserver: fallback, search_list: empty }))
            },
        },
    }
}

/// Runs the lookup from a step, handing each source the next reply in turn,
/// until the lookup ends or the replies run out.
pub open spec fn run_lookup(step: StepModel, replies: Seq<ReplyModel>) -> StepModel
    decreases replies.len(),
{
    match step {
        StepModel::Query(s) => if replies.len() == 0 {
            step
        } else {
            run_lookup(step_model(s, replies[0]), replies.drop_first())
        },
        _ => step,
    }
}

/// The first nameserver found among the replies, with its search list.
pub open spec fn first_found(replies: Seq<ReplyModel>) -> Option<(Seq<char>, Seq<Seq<char>>)>
    decreases replies.len(),
{
    if replies.len() == 0 {
        None
    } else {
        match replies[0] {
            ReplyModel::Found(ns, sl) => Some((ns, sl)),
            _ => first_found(replies.drop_first()),
        }
    }
}

/// On Unix the system lookup never fails: after at most the five sources, it
/// ends with the nameserver of the first source that names one and the search
/// list that source gave, or with the fallback nameserver and no search list.
pub proof fn unix_lookup_finds_first_or_falls_back(replies: Seq<ReplyModel>)
    requires
        replies.len() >= 5,
    ensures
        run_lookup(first_step(Platform::Unix), replies) == match first_found(replies.take(5)) {
            Some((ns, sl)) => StepModel::Resolved(ns, sl),
            None => StepModel::Resolved(fallback_nameserver(), seq![]),
        },
{
    let r = replies;
    let t = replies.take(5);
    assert(t.drop_first() =~= r.drop_first().take(4));
    assert(t.drop_first().drop_first() =~= r.drop_first().drop_first().take(3));
    assert(t.drop_first().drop_first().drop_first() =~= r.drop_first().drop_first().drop_first().take(2));
    assert(t.drop_first().drop_first().drop_first().drop_first() =~= r.drop_first().drop_first().drop_first().drop_first().take(1));
    assert(t.drop_first().drop_first().drop_first().drop_first().drop_first() =~= Seq::<ReplyModel>::empty());
    reveal_with_fuel(run_lookup, 6);
    reveal_with_fuel(first_found, 6);
}

/// On Windows the lookup consults the adapters once: their nameserver, else
/// the fallback, or the error met while reading them.
pub proof fn windows_lookup_outcome(reply: ReplyModel)
    ensures
        run_lookup(first_step(Platform::Windows), seq![reply]) == match reply {
            ReplyModel::Found(ns, sl) => StepModel::Resolved(ns, sl),
            ReplyModel::NotFound => StepModel::Resolved(fallback_nameserver(), seq![]),
            ReplyModel::Failed(e) => StepModel::Failed(LookupErrorModel::Windows(e)),
        },
{
    reveal_with_fuel(run_lookup, 3);
    assert(seq![reply].drop_first() =~= Seq::<ReplyModel>::empty());
}

/// What reading a resolv.conf-style file tells the lookup: its first
/// nameserver with the search list before it, or nothing.
pub open spec fn resolv_conf_reply(lines: Seq<Seq<char>>) -> ReplyModel {
    match resolv_conf(lines) {
        Some((ns, sl)) => ReplyModel::Found(ns, sl),
        None => ReplyModel::NotFound,
    }
}

/// The reply of a resolv.conf-style source, from the lines read of the file.
pub fn reply_of_resolv_conf(lines: &Vec<String>) -> (r: SourceReply)
    ensures
        r.model() == resolv_conf_reply(views(lines@)),
{
    match parse_resolv_conf(lines) {
        Some((ns, sl)) => SourceReply::Found(ns, sl),
        None => SourceReply::NotFound,
    }
}

/// When `/etc/resolv.conf` names a nameserver, the system's resolver is that
/// nameserver with the search list that the file gives before it, whatever
/// the later sources would say.
pub proof fn system_resolver_follows_resolv_conf(lines: Seq<Seq<char>>, later: Seq<ReplyModel>)
    requires
        resolv_conf(lines) is Some,
    ensures
        match resolv_conf(lines) {
            Some((ns, sl)) => run_lookup(first_step(Platform::Unix), seq![resolv_conf_reply(lines)] + later)
                == StepModel::Resolved(ns, sl),
            None => false,
        },
{
    let replies = seq![resolv_conf_reply(lines)] + later;
    assert(replies[0] == resolv_conf_reply(lines));
    reveal_with_fuel(run_lookup, 2);
}

/// Whether a reply, when it names a nameserver, names it as an IP address in
/// canonical text.
pub open spec fn names_canonical_ip(reply: ReplyModel) -> bool {
    match reply {
        ReplyModel::Found(ns, _) => ip_text(ns) == Some(ns),
        _ => true,
    }
}

/// What a tool that names a nameserver tells the lookup: that nameserver with
/// no search list, or nothing.
pub open spec fn tool_reply_model(found: Option<Seq<char>>) -> ReplyModel {
    match found {
        Some(ns) => ReplyModel::Found(ns, seq![]),
        None => ReplyModel::NotFound,
    }
}

/// The reply of a source that is a tool, from the nameserver it names.
pub fn tool_reply(found: Option<String>) -> (r: SourceReply)
    ensures
        r.model() == tool_reply_model(opt_view(found)),
{
    match found {
        Some(ns) => {
            let empty: Vec<String> = Vec::new();
            assert(views(empty@) =~= Seq::<Seq<char>>::empty());
            SourceReply::Found(ns, empty)
        },
        None => SourceReply::NotFound,
    }
}

proof fn lemma_resolv_conf_scan_canonical(lines: Seq<Seq<char>>, search: Seq<Seq<char>>)
    ensures
        resolv_conf_scan(lines, search) matches Some((ns, _)) ==> ip_text(ns) == Some(ns),
    decreases lines.len(),
{
    if lines.len() > 0 {
        let line = lines[0];
        let rest = line.skip("nameserver "@.len() as int);
        if starts_with(line, "nameserver "@) && ip_text(rest) is Some {
            ip_text_is_canonical(rest);
        } else {
            lemma_resolv_conf_scan_canonical(
                lines.drop_first(),
                if starts_with(line, "search "@) {
                    words(line.skip("search "@.len() as int), true)
                } else {
                    search
                },
            );
        }
    }
}

/// The nameserver that a resolv.conf-style file names is an IP address in
/// canonical text.
pub proof fn resolv_conf_names_canonical_ip(lines: Seq<Seq<char>>)
    ensures
        names_canonical_ip(resolv_conf_reply(lines)),
{
    lemma_resolv_conf_scan_canonical(lines, seq![]);
}

proof fn lemma_first_entry_addr_canonical(ws: Seq<Seq<char>>)
    ensures
        first_entry_addr(ws) matches Some(a) ==> ip_text(a) == Some(a),
    decreases ws.len(),
{
    if ws.len() > 0 {
        let e = before_char(before_char(ws[0], '#'), '%');
        if ip_text(e) is Some {
            ip_text_is_canonical(e);
        } else {
            lemma_first_entry_addr_canonical(ws.drop_first());
        }
    }
}

proof fn lemma_resolvectl_scan_canonical(lines: Seq<Seq<char>>, global: Option<Seq<char>>)
    requires
        global matches Some(g) ==> ip_text(g) == Some(g),
    ensures
        resolvectl_scan(lines, global) matches Some(a) ==> ip_text(a) == Some(a),
    decreases lines.len(),
{
    if lines.len() > 0 {
        let line = lines[0];
        let rest = lines.drop_first();
        match find(line, seq![':']) {
            None => lemma_resolvectl_scan_canonical(rest, global),
            Some(p) => {
                let after = trim(line.skip(p + 1));
                lemma_first_entry_addr_canonical(words(after, false));
                if after.len() == 0 {
                    lemma_resolvectl_scan_canonical(rest, global);
                } else if starts_with(line, "Global:"@) {
                    lemma_resolvectl_scan_canonical(rest, first_entry_addr(words(after, false)));
                } else {
                    lemma_resolvectl_scan_canonical(rest, global);
                }
            },
        }
    }
}

/// The nameserver chosen from the output of `resolvectl dns` is an IP address
/// in canonical text.
pub proof fn resolvectl_names_canonical_ip(text: Seq<char>)
    ensures
        names_canonical_ip(tool_reply_model(resolvectl_choice(text))),
{
    lemma_resolvectl_scan_canonical(text_lines(text), None);
}

proof fn lemma_scutil_scan_canonical(lines: Seq<Seq<char>>)
    ensures
        scutil_scan(lines) matches Some(a) ==> ip_text(a) == Some(a),
    decreases lines.len(),
{
    if lines.len() > 0 {
        let t = trim(lines[0]);
        let after = t.skip("nameserver["@.len() as int);
        if starts_with(t, "nameserver["@) && find(after, "] : "@) is Some {
            let p = find(after, "] : "@)->0;
            let x = trim(after.skip(p + "] : "@.len()));
            if ip_text(x) is Some {
                ip_text_is_canonical(x);
            }
        }
        lemma_scutil_scan_canonical(lines.drop_first());
    }
}

/// The nameserver found in the output of `scutil --dns` is an IP address in
/// canonical text.
pub proof fn scutil_names_canonical_ip(text: Seq<char>)
    ensures
        names_canonical_ip(tool_reply_model(scutil_choice(text))),
{
    lemma_scutil_scan_canonical(text_lines(text));
}

proof fn lemma_first_found_canonical(replies: Seq<ReplyModel>)
    requires
        forall|i: int| 0 <= i < replies.len() ==> names_canonical_ip(#[trigger] replies[i]),
    ensures
        first_found(replies) matches Some((ns, _)) ==> ip_text(ns) == Some(ns),
    decreases replies.len(),
{
    if replies.len() > 0 {
        assert(names_canonical_ip(replies[0]));
        let rest = replies.drop_first();
        assert forall|i: int| 0 <= i < rest.len() implies names_canonical_ip(#[trigger] rest[i]) by {
            assert(rest[i] == replies[i + 1]);
        }
        lemma_first_found_canonical(rest);
    }
}

/// On Unix, when every source consulted names its nameserver, if any, as an IP
/// address in canonical text, the system lookup ends with a nameserver in that
/// form: never a host name, never an empty string.
pub proof fn unix_lookup_ends_with_canonical_ip(replies: Seq<ReplyModel>)
    requires
        replies.len() >= 5,
        forall|i: int| 0 <= i < replies.len() ==> names_canonical_ip(#[trigger] replies[i]),
    ensures
        run_lookup(first_step(Platform::Unix), replies) matches StepModel::Resolved(ns, _) && ip_text(ns) == Some(ns),
{
    unix_lookup_finds_first_or_falls_back(replies);
    let t = replies.take(5);
    assert forall|i: int| 0 <= i < t.len() implies names_canonical_ip(#[trigger] t[i]) by {
        assert(t[i] == replies[i]);
    }
    lemma_first_found_canonical(t);
    fallback_is_canonical_ip();
}

/// The replies of the Unix sources, in the order they are consulted, from what
/// was read of each: the lines of `/etc/resolv.conf`, the output of
/// `resolvectl dns` when it ran and succeeded, the lines of the two systemd
/// resolv.conf files, and the output of `scutil --dns` when it ran and
/// succeeded. A file that cannot be opened reads as no lines.
pub open spec fn unix_replies(
    resolv_conf_lines: Seq<Seq<char>>,
    resolvectl_output: Option<Seq<char>>,
    systemd_lines: Seq<Seq<char>>,
    stub_lines: Seq<Seq<char>>,
    scutil_output: Option<Seq<char>>,
) -> Seq<ReplyModel> {
    seq![
        resolv_conf_reply(resolv_conf_lines),
        tool_reply_model(
            match resolvectl_output {
                Some(t) => resolvectl_choice(t),
                None => None,
            },
        ),
        resolv_conf_reply(systemd_lines),
        resolv_conf_reply(stub_lines),
        tool_reply_model(
            match scutil_output {
                Some(t) => scutil_choice(t),
                None => None,
            },
        ),
    ]
}

/// Whatever the system's files and tools hold, the nameserver that the Unix
/// lookup ends with is an IP address in canonical text: parsing it as an
/// address and writing it back gives the same text.
pub proof fn system_nameserver_is_canonical_ip(
    resolv_conf_lines: Seq<Seq<char>>,
    resolvectl_output: Option<Seq<char>>,
    systemd_lines: Seq<Seq<char>>,
    stub_lines: Seq<Seq<char>>,
    scutil_output: Option<Seq<char>>,
)
    ensures
        run_lookup(
            first_step(Platform::Unix),
            unix_replies(resolv_conf_lines, resolvectl_output, systemd_lines, stub_lines, scutil_output),
        ) matches StepModel::Resolved(ns, _) && ip_text(ns) == Some(ns),
{
    let r = unix_replies(resolv_conf_lines, resolvectl_output, systemd_lines, stub_lines, scutil_output);
    resolv_conf_names_canonical_ip(resolv_conf_lines);
    resolv_conf_names_canonical_ip(systemd_lines);
    resolv_conf_names_canonical_ip(stub_lines);
    match resolvectl_output {
        Some(t) => resolvectl_names_canonical_ip(t),
        None => {},
    }
    match scutil_output {
        Some(t) => scutil_names_canonical_ip(t),
        None => {},
    }
    assert forall|i: int| 0 <= i < r.len() implies names_canonical_ip(#[trigger] r[i]) by {
        if i == 0 {
        } else if i == 1 {
        } else if i == 2 {
        } else if i == 3 {
        } else {
        }
    }
    unix_lookup_ends_with_canonical_ip(r);
}

/// The labels of a domain name, as views.
pub open spec fn labels_view(v: Vec<String>) -> Seq<Seq<char>> {
    views(v@)
}

/// The names to query for a name of one label or none: the name followed by
/// each search domain that could be encoded, in order.
pub open spec fn suffixed_names(name: Seq<Seq<char>>, encoded: Seq<Option<Seq<Seq<char>>>>) -> Seq<Seq<Seq<char>>>
    decreases encoded.len(),
{
    if encoded.len() == 0 {
        seq![]
    } else {
        let first = match encoded[0] {
            Some(suffix) => seq![name + suffix],
            None => seq![],
        };
        first + suffixed_names(name, encoded.drop_first())
    }
}

/// The sequence of names to query for `name`, given the encodings of the
/// search list in order (`None` for a search domain that does not encode): a
/// name of more than one label is queried as it is; any other is queried
/// with each encodable search domain appended, then as it is.
pub open spec fn name_list_of(name: Seq<Seq<char>>, encoded: Seq<Option<Seq<Seq<char>>>>) -> Seq<Seq<Seq<char>>> {
    if name.len() > 1 {
        seq![name]
    } else {
        suffixed_names(name, encoded).push(name)
    }
}

/// A name of more than one label is queried as it is, alone, whatever the
/// search list holds.
pub proof fn qualified_name_is_queried_alone(name: Seq<Seq<char>>, encoded: Seq<Option<Seq<Seq<char>>>>)
    requires
        name.len() > 1,
    ensures
        name_list_of(name, encoded) == seq![name],
{
}

/// A name of one label or none is queried last as it is, after the names made
/// with the search domains that could be encoded; one that could not adds
/// nothing.
pub proof fn short_name_is_queried_last(name: Seq<Seq<char>>, encoded: Seq<Option<Seq<Seq<char>>>>)
    requires
        name.len() <= 1,
    ensures
        name_list_of(name, encoded).last() == name,
        name_list_of(name, encoded).len() == suffixed_names(name, encoded).len() + 1,
        encoded.len() > 0 && encoded[0] is None ==> suffixed_names(name, encoded) == suffixed_names(
            name,
            encoded.drop_first(),
        ),
{
    if encoded.len() > 0 && encoded[0] is None {
        assert(Seq::<Seq<Seq<char>>>::empty() + suffixed_names(name, encoded.drop_first()) =~= suffixed_names(
            name,
            encoded.drop_first(),
        ));
    }
}

/// The views of encoded search domains.
pub open spec fn encoded_view(v: Seq<Option<Vec<String>>>) -> Seq<Option<Seq<Seq<char>>>> {
    v.map_values(|o: Option<Vec<String>>| match o {
        Some(l) => Some(views(l@)),
        None => None,
    })
}

/// The views of a list of names.
pub open spec fn names_view(v: Seq<Vec<String>>) -> Seq<Seq<Seq<char>>> {
    v.map_values(|l: Vec<String>| views(l@))
}

/// Copies the labels of a name.
fn copy_labels(v: &Vec<String>) -> (r: Vec<String>)
    ensures
        views(r@) == views(v@),
{
    let mut r: Vec<String> = Vec::new();
    let mut i: usize = 0;
    while i < v.len()
        invariant
            i <= v.len(),
            r@.len() == i,
            views(r@) == views(v@).take(i as int),
        decreases v.len() - i,
    {
        let ghost old_r = r@;
        r.push(v[i].clone());
        assert forall|k: int| 0 <= k < i + 1 implies #[trigger] views(r@)[k] == views(v@).take(i + 1)[k] by {
            if k < i {
                assert(r@[k] == old_r[k]);
                assert(views(old_r)[k] == views(v@).take(i as int)[k]);
            }
        }
        i += 1;
        assert(views(r@) =~= views(v@).take(i as int));
    }
    assert(views(v@).take(v.len() as int) =~= views(v@));
    r
}

/// The labels of a name followed by those of a suffix.
fn extend_labels(name: &Vec<String>, suffix: &Vec<String>) -> (r: Vec<String>)
    ensures
        views(r@) == views(name@) + views(suffix@),
{
    let mut r = copy_labels(name);
    let mut i: usize = 0;
    assert(r@.len() == views(r@).len() && name@.len() == views(name@).len());
    assert(views(name@) + views(suffix@).take(0) =~= views(name@));
    while i < suffix.len()
        invariant
            i <= suffix.len(),
            r@.len() == name@.len() + i,
            views(r@) == views(name@) + views(suffix@).take(i as int),
        decreases suffix.len() - i,
    {
        let ghost old_r = r@;
        r.push(suffix[i].clone());
        assert forall|k: int| 0 <= k < r@.len() implies #[trigger] views(r@)[k] == (views(name@) + views(suffix@).take(i + 1))[k] by {
            if k < old_r.len() {
                assert(r@[k] == old_r[k]);
                assert(views(old_r)[k] == (views(name@) + views(suffix@).take(i as int))[k]);
            }
        }
        i += 1;
        assert(views(r@) =~= views(name@) + views(suffix@).take(i as int));
    }
    assert(views(suffix@).take(suffix.len() as int) =~= views(suffix@));
    r
}

impl Resolver {
    /// Returns a sequence of names to be queried, taking into account the
    /// search list. A name is given by its labels; `encoded_search` holds the
    /// labels of each search domain of this resolver, in order, or `None` for
    /// one that cannot be encoded as labels (which is left out).
    pub fn name_list(&self, name: &Vec<String>, encoded_search: &Vec<Option<Vec<String>>>) -> (r: Vec<Vec<String>>)
        requires
            encoded_search.len() == self.search_list.len(),
        ensures
            names_view(r@) == name_list_of(views(name@), encoded_view(encoded_search@)),
    {
        let ghost nv = views(name@);
        let ghost ev = encoded_view(encoded_search@);
        let mut list: Vec<Vec<String>> = Vec::new();
        if name.len() > 1 {
            list.push(copy_labels(name));
            assert(names_view(list@) =~= seq![nv]);
            return list;
        }
        let mut i: usize = 0;
        assert(ev.skip(0) =~= ev);
        assert(names_view(list@) =~= Seq::<Seq<Seq<char>>>::empty());
        while i < encoded_search.len()
            invariant
                i <= encoded_search.len(),
                nv == views(name@),
                ev == encoded_view(encoded_search@),
                names_view(list@) + suffixed_names(nv, ev.skip(i as int)) == suffixed_names(nv, ev),
            decreases encoded_search.len() - i,
        {
            let ghost old_list = names_view(list@);
            assert(ev.skip(i as int)[0] == ev[i as int]);
            assert(ev.skip(i as int).drop_first() =~= ev.skip(i + 1));
            match &encoded_search[i] {
                Some(suffix) => {
                    let full = extend_labels(name, suffix);
                    list.push(full);
                    assert(names_view(list@) =~= old_list.push(nv + views(suffix@)));
                },
                None => {},
            }
            i += 1;
            assert(names_view(list@) + suffixed_names(nv, ev.skip(i as int)) =~= suffixed_names(nv, ev));
        }
        assert(ev.skip(i as int) =~= Seq::<Option<Seq<Seq<char>>>>::empty());
        let ghost before = names_view(list@);
        list.push(copy_labels(name));
        assert(names_view(list@) =~= before.push(nv));
        list
    }
}

} // verus!
