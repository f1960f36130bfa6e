//! Application configuration: the tunnels to proxy, logging, capture limits,
//! the web UI port and the optional Cloudflare settings, with their defaults.
use vstd::prelude::*;

verus! {

/// Top-level application configuration.
#[derive(Clone, Debug)]
pub struct Config {
    /// One entry per tunnel to proxy.
    pub tunnels: Vec<TunnelConfig>,
    /// What is written to stdout.
    pub logging: LoggingConfig,
    /// How captured traffic is kept in memory.
    pub capture: CaptureConfig,
    /// The local web UI server.
    pub gui: GuiConfig,
    /// Optional Cloudflare integration settings.
    pub cloudflare: Option<CloudflareConfig>,
    /// Path of the file the configuration was loaded from.
    pub config_path: Option<String>,
}

/// Cloudflare integration settings.
#[derive(Clone, Debug)]
pub struct CloudflareConfig {
    /// API token with DNS and tunnel edit permissions.
    pub api_token: String,
    pub account_id: String,
    /// Zone for DNS record management.
    pub zone_id: String,
    /// Id of the managed tunnel; filled in on first run.
    pub tunnel_id: Option<String>,
    /// Display name of the managed tunnel.
    pub tunnel_name: String,
    /// Connector token for `cloudflared service install`; filled in on first run.
    pub tunnel_token: Option<String>,
}

/// `"tunneldesk"`.
pub open spec fn default_tunnel_name_text() -> Seq<char> {
    seq!['t', 'u', 'n', 'n', 'e', 'l', 'd', 'e', 's', 'k']
}

/// `"basic"`.
pub open spec fn basic_text() -> Seq<char> {
    seq!['b', 'a', 's', 'i', 'c']
}

impl CloudflareConfig {
    /// The tunnel name used when none is configured: `"tunneldesk"`.
    pub fn default_tunnel_name() -> (r: String)
        ensures
            r@ == default_tunnel_name_text(),
    {
        let r = "tunneldesk".to_string();
        proof {
            reveal_strlit("tunneldesk");
        }
        r
    }
}

/// What traffic information is written to stdout.
#[derive(Clone, Debug)]
pub struct LoggingConfig {
    /// Verbosity: `"off"`, `"basic"` or `"full"`.
    pub stdout_level: String,
    /// Body bytes logged at the `full` level; independent of the stored body
    /// size.
    pub max_request_body_size: usize,
}

impl LoggingConfig {
    /// The default verbosity, `"basic"`.
    pub fn default_stdout_level() -> (r: String)
        ensures
            r@ == basic_text(),
    {
        let r = "basic".to_string();
        proof {
            reveal_strlit("basic");
        }
        r
    }

    /// The default logged body size, 1 KiB.
    pub fn default_max_request_body_size() -> (r: usize)
        ensures
            r == 1024,
    {
        1024
    }
}

impl Default for LoggingConfig {
    fn default() -> (r: LoggingConfig)
        ensures
            r.stdout_level@ == basic_text(),
            r.max_request_body_size == 1024,
    {
        LoggingConfig {
            stdout_level: LoggingConfig::default_stdout_level(),
            max_request_body_size: LoggingConfig::default_max_request_body_size(),
        }
    }
}

/// How captured traffic is kept in memory.
#[derive(Clone, Debug)]
pub struct CaptureConfig {
    /// Most exchanges kept; the oldest is evicted when full.
    pub max_stored_requests: usize,
    /// Most body bytes stored per message; proxying always forwards the
    /// whole body.
    pub max_request_body_size: usize,
}

impl CaptureConfig {
    /// The default number of stored exchanges, 1000.
    pub fn default_max_stored_requests() -> (r: usize)
        ensures
            r == 1000,
    {
        1000
    }

    /// The default stored body size, 10 MiB.
    pub fn default_max_request_body_size() -> (r: usize)
        ensures
            r == 10485760,
    {
        10485760
    }
}

impl Default for CaptureConfig {
    fn default() -> (r: CaptureConfig)
        ensures
            r.max_stored_requests == 1000,
            r.max_request_body_size == 10485760,
    {
        CaptureConfig {
            max_stored_requests: CaptureConfig::default_max_stored_requests(),
            max_request_body_size: CaptureConfig::default_max_request_body_size(),
        }
    }
}

/// The built-in web UI server.
#[derive(Clone, Debug)]
pub struct GuiConfig {
    /// TCP port the web UI listens on.
    pub port: u16,
}

impl GuiConfig {
    /// The default web UI port, 3013.
    pub fn default_port() -> (r: u16)
        ensures
            r == 3013,
    {
        3013
    }
}

impl Default for GuiConfig {
    fn default() -> (r: GuiConfig)
        ensures
            r.port == 3013,
    {
        GuiConfig { port: GuiConfig::default_port() }
    }
}

/// One tunnel to proxy.
#[derive(Clone, Debug)]
pub struct TunnelConfig {
    /// Name that identifies the tunnel in logs and the UI.
    pub name: String,
    /// Public hostname of the tunnel.
    pub domain: String,
    /// Path of the Unix domain socket that `cloudflared` writes to.
    pub socket_path: String,
    /// Local TCP port the traffic is forwarded to.
    pub target_port: u16,
    /// Whether the tunnel is routed by Cloudflare; a disabled tunnel is still
    /// proxied locally.
    pub enabled: bool,
}

impl TunnelConfig {
    /// Tunnels are enabled unless configured otherwise.
    pub fn default_enabled() -> (r: bool)
        ensures
            r,
    {
        true
    }

    /// A copy of the tunnel's settings.
    pub fn duplicate(&self) -> (r: TunnelConfig)
        ensures
            r == *self,
    {
        TunnelConfig {
            name: self.name.clone(),
            domain: self.domain.clone(),
            socket_path: self.socket_path.clone(),
            target_port: self.target_port,
            enabled: self.enabled,
        }
    }
}

impl Config {
    /// The built-in configuration for development: no tunnels, `basic`
    /// logging of up to 1 KiB, 1000 stored exchanges of up to 10 MiB, the web
    /// UI on port 8081 and no Cloudflare settings.
    pub fn default_config() -> (r: Config)
        ensures
            r.tunnels@.len() == 0,
            r.logging.stdout_level@ == basic_text(),
            r.logging.max_request_body_size == 1024,
            r.capture.max_stored_requests == 1000,
            r.capture.max_request_body_size == 10485760,
            r.gui.port == 8081,
            r.cloudflare is None,
            r.config_path is None,
    {
        Config {
            tunnels: Vec::new(),
            logging: LoggingConfig {
                stdout_level: LoggingConfig::default_stdout_level(),
                max_request_body_size: LoggingConfig::default_max_request_body_size(),
            },
            capture: CaptureConfig { max_stored_requests: 1000, max_request_body_size: 10485760 },
            gui: GuiConfig { port: 8081 },
            cloudflare: None,
            config_path: None,
        }
    }
}

// ── Saving the configuration file ───────────────────────────────────────────

#[verifier::external_type_specification]
#[verifier::external_body]
pub struct ExTomlDocument(toml_edit::DocumentMut);

#[verifier::external_type_specification]
#[verifier::external_body]
pub struct ExTomlTable(toml_edit::Table);

#[verifier::external_type_specification]
#[verifier::external_body]
pub struct ExTomlArrayOfTables(toml_edit::ArrayOfTables);

/// A TOML value as the saved configuration sees it: text, an integer, a
/// boolean, or anything else (a float, a date, an array or a table).
pub enum TomlValue {
    Text(Seq<char>),
    Integer(int),
    Boolean(bool),
    Other,
}

/// A top-level entry of a TOML document: a plain value, a table (a
/// `[header]` table or an inline one) with its entries, or an array of
/// tables with the entries of each.
pub enum TomlItem {
    Value(TomlValue),
    Table(Map<Seq<char>, TomlValue>),
    TableArray(Seq<Map<Seq<char>, TomlValue>>),
}

/// A value the saved configuration writes.
#[derive(Clone, Debug)]
pub enum TomlField {
    Text(String),
    Integer(i64),
    Boolean(bool),
}

impl View for TomlField {
    type V = TomlValue;

    open spec fn view(&self) -> TomlValue {
        match self {
            TomlField::Text(s) => TomlValue::Text(s@),
            TomlField::Integer(n) => TomlValue::Integer(*n as int),
            TomlField::Boolean(b) => TomlValue::Boolean(*b),
        }
    }
}

/// What a TOML text parses to, as `toml_edit::DocumentMut` reads it: its
/// top-level entries, or `None` when it is not valid TOML.
pub uninterp spec fn toml_document(text: Seq<char>) -> Option<Map<Seq<char>, TomlItem>>;

/// The top-level entries a `toml_edit::DocumentMut` holds.
pub uninterp spec fn doc_items(d: toml_edit::DocumentMut) -> Map<Seq<char>, TomlItem>;

/// The entries a `toml_edit::Table` holds.
pub uninterp spec fn table_entries(t: toml_edit::Table) -> Map<Seq<char>, TomlValue>;

/// The tables a `toml_edit::ArrayOfTables` holds, in order.
pub uninterp spec fn aot_tables(a: toml_edit::ArrayOfTables) -> Seq<Map<Seq<char>, TomlValue>>;

/// The text a `toml_edit::DocumentMut` is written as (its `Display`), with
/// the formatting and comments it was parsed with.
pub uninterp spec fn toml_rendered(d: toml_edit::DocumentMut) -> Seq<char>;

/// `str::parse::<toml_edit::DocumentMut>`: the document when the text is
/// valid TOML, with the entries `toml_document` names; otherwise the parser's
/// error message, which is not stated.
#[verifier::external_body]
fn parse_toml(text: &str) -> (r: Result<toml_edit::DocumentMut, String>)
    ensures
        match r {
            Ok(d) => toml_document(text@) == Some(doc_items(d)),
            Err(_) => toml_document(text@) is None,
        },
{
    text.parse::<toml_edit::DocumentMut>().map_err(|e| e.to_string())
}

/// `Table::remove` on the document's root table: the entry `key` is gone.
#[verifier::external_body]
fn doc_remove(d: &mut toml_edit::DocumentMut, key: &str)
    ensures
        doc_items(*final(d)) == doc_items(*old(d)).remove(key@),
{
    d.remove(key);
}

/// `true` when `key` can be indexed as a table: it is absent, or holds a
/// table (a `[header]` table or an inline table).
pub open spec fn table_slot(items: Map<Seq<char>, TomlItem>, key: Seq<char>) -> bool {
    !items.contains_key(key) || items[key] is Table
}

/// The entries of the table under `key`, none when there is none.
pub open spec fn table_at(items: Map<Seq<char>, TomlItem>, key: Seq<char>) -> Map<Seq<char>, TomlValue> {
    if items.contains_key(key) && items[key] is Table {
        items[key]->Table_0
    } else {
        Map::empty()
    }
}

/// `Table::get` on the document's root table, telling a table (or an inline
/// table) from anything else: whether `key` can be indexed as a table.
#[verifier::external_body]
fn doc_table_slot(d: &toml_edit::DocumentMut, key: &str) -> (r: bool)
    ensures
        r == table_slot(doc_items(*d), key@),
{
    match d.get(key) {
        None => true,
        Some(toml_edit::Item::Table(_)) => true,
        Some(toml_edit::Item::Value(toml_edit::Value::InlineTable(_))) => true,
        Some(_) => false,
    }
}

/// Sets the document's entry `key` to the array of tables `tables`
/// (`IndexMut` on the document, then assignment).
#[verifier::external_body]
fn doc_set_table_array(d: &mut toml_edit::DocumentMut, key: &str, tables: toml_edit::ArrayOfTables)
    ensures
        doc_items(*final(d)) == doc_items(*old(d)).insert(key@, TomlItem::TableArray(aot_tables(tables))),
{
    d[key] = toml_edit::Item::ArrayOfTables(tables);
}

/// Sets `key` to `value` in the document's table `table`, creating the table
/// when it is absent (`IndexMut` on the document, `Item::or_insert` with an
/// empty table, `IndexMut` on the item and assignment).  Indexing an entry
/// that is not a table panics, so `table` must be absent or a table.
#[verifier::external_body]
fn doc_set_in_table(d: &mut toml_edit::DocumentMut, table: &str, key: &str, value: &TomlField)
    requires
        table_slot(doc_items(*old(d)), table@),
    ensures
        doc_items(*final(d)) == doc_items(*old(d)).insert(
            table@,
            TomlItem::Table(table_at(doc_items(*old(d)), table@).insert(key@, value@)),
        ),
{
    d[table].or_insert(toml_edit::Item::Table(toml_edit::Table::new()))[key] = match value {
        TomlField::Text(s) => toml_edit::value(s.clone()),
        TomlField::Integer(n) => toml_edit::value(*n),
        TomlField::Boolean(b) => toml_edit::value(*b),
    };
}

/// The document's text (`Display`), named by `toml_rendered`.
#[verifier::external_body]
fn render_toml(d: &toml_edit::DocumentMut) -> (r: String)
    ensures
        r@ == toml_rendered(*d),
{
    d.to_string()
}

/// `Table::new`: an empty table.
#[verifier::external_body]
fn table_new() -> (r: toml_edit::Table)
    ensures
        table_entries(r) =~= Map::empty(),
{
    toml_edit::Table::new()
}

/// Sets `key` to `value` in a table (`IndexMut` on the table, then
/// assignment).
#[verifier::external_body]
fn table_set(t: &mut toml_edit::Table, key: &str, value: &TomlField)
    ensures
        table_entries(*final(t)) == table_entries(*old(t)).insert(key@, value@),
{
    t[key] = match value {
        TomlField::Text(s) => toml_edit::value(s.clone()),
        TomlField::Integer(n) => toml_edit::value(*n),
        TomlField::Boolean(b) => toml_edit::value(*b),
    };
}

/// `ArrayOfTables::new`: no tables.
#[verifier::external_body]
fn tables_new() -> (r: toml_edit::ArrayOfTables)
    ensures
        aot_tables(r) =~= Seq::empty(),
{
    toml_edit::ArrayOfTables::new()
}

/// `ArrayOfTables::push`: `t` is appended.
#[verifier::external_body]
fn tables_push(a: &mut toml_edit::ArrayOfTables, t: toml_edit::Table)
    ensures
        aot_tables(*final(a)) == aot_tables(*old(a)).push(table_entries(t)),
{
    a.push(t);
}

/// The `[[tunnels]]` table of one tunnel.
pub open spec fn tunnel_row(t: TunnelConfig) -> Map<Seq<char>, TomlValue> {
    Map::empty().insert("name"@, TomlValue::Text(t.name@)).insert(
        "domain"@,
        TomlValue::Text(t.domain@),
    ).insert("socket_path"@, TomlValue::Text(t.socket_path@)).insert(
        "target_port"@,
        TomlValue::Integer(t.target_port as int),
    ).insert("enabled"@, TomlValue::Boolean(t.enabled))
}

/// The `[cloudflare]` entries after saving `cf` over the entries `old`: the
/// token, account, zone and tunnel name are written, the tunnel id and token
/// only when set; every other entry is kept.
pub open spec fn cloudflare_entries(old: Map<Seq<char>, TomlValue>, cf: CloudflareConfig) -> Map<Seq<char>, TomlValue> {
    let base = old.insert("api_token"@, TomlValue::Text(cf.api_token@)).insert(
        "account_id"@,
        TomlValue::Text(cf.account_id@),
    ).insert("zone_id"@, TomlValue::Text(cf.zone_id@)).insert(
        "tunnel_name"@,
        TomlValue::Text(cf.tunnel_name@),
    );
    let with_id = match cf.tunnel_id {
        Some(id) => base.insert("tunnel_id"@, TomlValue::Text(id@)),
        None => base,
    };
    match cf.tunnel_token {
        Some(token) => with_id.insert("tunnel_token"@, TomlValue::Text(token@)),
        None => with_id,
    }
}

/// The entries of a configuration file after `config` is saved over the
/// entries `items`: `[[tunnels]]` is rebuilt from the tunnels, in order; with
/// Cloudflare settings, the `[cloudflare]` table is updated as
/// `cloudflare_entries` says (and created when absent); every other entry
/// is kept.
pub open spec fn saved_items(items: Map<Seq<char>, TomlItem>, config: Config) -> Map<Seq<char>, TomlItem> {
    let with_tunnels = items.remove("tunnels"@).insert(
        "tunnels"@,
        TomlItem::TableArray(config.tunnels@.map_values(|t: TunnelConfig| tunnel_row(t))),
    );
    match config.cloudflare {
        None => with_tunnels,
        Some(cf) => with_tunnels.insert(
            "cloudflare"@,
            TomlItem::Table(cloudflare_entries(table_at(with_tunnels, "cloudflare"@), cf)),
        ),
    }
}

/// Writes `config` into the parsed configuration document `doc` and returns
/// the text of the result: a document whose entries are `saved_items` of
/// the old ones, keeping the formatting and comments of the entries it does
/// not rewrite.  With Cloudflare settings the `cloudflare` entry must be
/// absent or a table.
pub fn saved_document_text(doc: toml_edit::DocumentMut, config: &Config) -> (r: String)
    requires
        config.cloudflare is Some ==> table_slot(doc_items(doc), "cloudflare"@),
    ensures
        exists|d: toml_edit::DocumentMut|
            doc_items(d) == saved_items(doc_items(doc), *config) && r@ == toml_rendered(d),
{
    proof {
        reveal_strlit("tunnels");
        reveal_strlit("cloudflare");
    }
    let ghost before = doc_items(doc);
    let mut doc = doc;
    let mut tables = tables_new();
    let mut i: usize = 0;
    while i < config.tunnels.len()
        invariant
            i <= config.tunnels@.len(),
            aot_tables(tables) == config.tunnels@.take(i as int).map_values(|t: TunnelConfig| tunnel_row(t)),
        decreases config.tunnels@.len() - i,
    {
        let t = &config.tunnels[i];
        let mut row = table_new();
        table_set(&mut row, "name", &TomlField::Text(t.name.clone()));
        table_set(&mut row, "domain", &TomlField::Text(t.domain.clone()));
        table_set(&mut row, "socket_path", &TomlField::Text(t.socket_path.clone()));
        table_set(&mut row, "target_port", &TomlField::Integer(t.target_port as i64));
        table_set(&mut row, "enabled", &TomlField::Boolean(t.enabled));
        assert(table_entries(row) == tunnel_row(*t));
        tables_push(&mut tables, row);
        assert(config.tunnels@.take(i + 1) =~= config.tunnels@.take(i as int).push(*t));
        assert(aot_tables(tables) =~= config.tunnels@.take(i + 1).map_values(|t: TunnelConfig| tunnel_row(t)));
        i = i + 1;
    }
    assert(config.tunnels@.take(config.tunnels@.len() as int) =~= config.tunnels@);
    doc_remove(&mut doc, "tunnels");
    doc_set_table_array(&mut doc, "tunnels", tables);
    let ghost with_tunnels = doc_items(doc);
    assert(with_tunnels == before.remove("tunnels"@).insert(
        "tunnels"@,
        TomlItem::TableArray(config.tunnels@.map_values(|t: TunnelConfig| tunnel_row(t))),
    ));
    match &config.cloudflare {
        None => {},
        Some(cf) => {
            assert(table_slot(before, "cloudflare"@));
            assert("tunnels"@.len() != "cloudflare"@.len());
            assert(table_slot(with_tunnels, "cloudflare"@));
            let ghost t0 = table_at(with_tunnels, "cloudflare"@);
            doc_set_in_table(&mut doc, "cloudflare", "api_token", &TomlField::Text(cf.api_token.clone()));
            doc_set_in_table(&mut doc, "cloudflare", "account_id", &TomlField::Text(cf.account_id.clone()));
            doc_set_in_table(&mut doc, "cloudflare", "zone_id", &TomlField::Text(cf.zone_id.clone()));
            doc_set_in_table(&mut doc, "cloudflare", "tunnel_name", &TomlField::Text(cf.tunnel_name.clone()));
            match &cf.tunnel_id {
                Some(id) => {
                    doc_set_in_table(&mut doc, "cloudflare", "tunnel_id", &TomlField::Text(id.clone()));
                },
                None => {},
            }
            match &cf.tunnel_token {
                Some(token) => {
                    doc_set_in_table(&mut doc, "cloudflare", "tunnel_token", &TomlField::Text(token.clone()));
                },
                None => {},
            }
            assert(doc_items(doc) =~= with_tunnels.insert(
                "cloudflare"@,
                TomlItem::Table(cloudflare_entries(t0, *cf)),
            ));
        },
    }
    render_toml(&doc)
}

/// The text of the configuration file after `config` is saved over the
/// file's current text `existing`: `Err` exactly when `existing` is not
/// valid TOML (the parser's message); otherwise the text of a document whose
/// entries are `saved_items` of the parsed ones, keeping the formatting and
/// comments of what is not rewritten.  With Cloudflare settings the file's
/// `cloudflare` entry must be absent or a table (writing into anything else
/// is an indexing panic).
pub fn saved_config_text(existing: &str, config: &Config) -> (r: Result<String, String>)
    requires
        config.cloudflare is Some ==> (toml_document(existing@) matches Some(items) ==> table_slot(
            items,
            "cloudflare"@,
        )),
    ensures
        match toml_document(existing@) {
            None => r is Err,
            Some(items) => r matches Ok(text) && exists|d: toml_edit::DocumentMut|
                doc_items(d) == saved_items(items, *config) && text@ == toml_rendered(d),
        },
{
    match parse_toml(existing) {
        Ok(doc) => Ok(saved_document_text(doc, config)),
        Err(e) => Err(e),
    }
}

/// The text to save `config` over the file text `existing`, as
/// `saved_config_text` gives it; `None` when the configuration has Cloudflare
/// settings and the file's `cloudflare` entry is neither absent nor a table,
/// where writing the settings cannot index it.
pub fn config_text_to_save(existing: &str, config: &Config) -> (r: Option<Result<String, String>>)
    ensures
        r is None <==> (config.cloudflare is Some && (toml_document(existing@) matches Some(items)
            && !table_slot(items, "cloudflare"@))),
        r matches Some(x) ==> match toml_document(existing@) {
            None => x is Err,
            Some(items) => x matches Ok(text) && exists|d: toml_edit::DocumentMut|
                doc_items(d) == saved_items(items, *config) && text@ == toml_rendered(d),
        },
{
    if config.cloudflare.is_some() {
        match parse_toml(existing) {
            Ok(doc) => {
                if !doc_table_slot(&doc, "cloudflare") {
                    return None;
                }
            },
            Err(_) => {},
        }
    }
    Some(saved_config_text(existing, config))
}

} // verus!
