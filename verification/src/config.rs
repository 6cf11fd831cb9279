//! Configuration: how YARlint decides which cops run and how they behave.
//!
//! The pipeline has two inputs, not one. The registry declares what parameters
//! exist and what their defaults are; the configuration file supplies overrides
//! only. Those are merged, validated, and resolved into a
//! [`ResolvedConfig`] in which every value is concrete.
//!
//! ```text
//! registry decls ─┐
//!                 ├─> merge ─> validate ─> ResolvedConfig ─> cop fields
//! yarlint.toml ───┘
//! ```
//!
//! - [`raw`] fails on malformed TOML
//! - [`merge`] fails on wrong precedence
//! - [`validate`] fails on bad user input
//! - [`params`] cannot fail

use vstd::prelude::*;

use crate::config::diagnostics::DiagnosticModel;
use crate::config::document::toml_document;
use crate::config::merge::{
    apply, apply_cli, base, base_state, cli_applied, cli_diagnostics, cli_state, file_diagnostics, file_state,
    fresh_cop, Merged,
};
use crate::config::resolved::{recorded_origin, OriginModel};
use crate::config::spec::default_model;
use crate::config::validate::{last_with_key, settings_resolved};
use crate::keyed::{lemma_lookup_has, lookup};
use crate::config::raw::{config_diagnostics, config_from, parse};
use crate::config::validate::{run, run_diagnostics, run_result};
use crate::linter::name_case::NameCase;

pub mod diagnostics;
pub mod document;
pub mod error;
pub mod globals;
pub mod merge;
pub mod params;
pub mod paths;
pub mod raw;
pub mod resolved;
pub mod source;
pub mod spec;
pub mod validate;

pub use diagnostics::Diagnostics;
pub use error::ConfigError;
pub use globals::Globals;
pub use merge::CliOverrides;
pub use params::CopParams;
pub use resolved::{CopSettings, Origin, ResolvedConfig};
pub use source::{ConfigSource, MapLoader, SourceLoader};
pub use spec::{CopDecl, ParamKind, ParamSpec, ParamValue};

verus! {

/// The configured rule name casing convention.
///
/// Fixed until `Style/RuleNameCase` reads its declared `case` parameter.
pub fn rule_name_case() -> (res: NameCase)
    ensures
        res == NameCase::PascalCase,
{
    NameCase::PascalCase
}

/// True if `res` is what resolving the registry `decls`, the configuration
/// file `source` (if any) and the command line `cli` gives, with `before`
/// the diagnostics collected until then and `after` those collected after.
///
/// The registry's defaults come first, then the file, then the command
/// line, then validation. A file that is not valid TOML is the only error.
pub open spec fn resolves(
    decls: Seq<CopDecl>,
    cli: CliOverrides,
    source: Option<ConfigSource>,
    res: Result<ResolvedConfig, ConfigError>,
    before: Seq<DiagnosticModel>,
    after: Seq<DiagnosticModel>,
) -> bool {
    match source {
        None => res matches Ok(cfg) && exists|m0: Merged, m1: Merged|
            #![trigger base_state(decls, m0), cli_state(m0, m1, cli)]
            {
                &&& base_state(decls, m0)
                &&& cli_state(m0, m1, cli)
                &&& run_result(m1, cfg)
                &&& after == before + cli_diagnostics(m0, cli) + run_diagnostics(m1)
            },
        Some(src) => match toml_document(src.text@) {
            Err((message, span)) => res matches Err(ConfigError::Parse { path: p, message: m, span: s })
                && p@ == src.path@ && m@ == message && s == span && after == before,
            Ok(document) => res matches Ok(cfg) && exists|m0: Merged, m1: Merged, m2: Merged|
                #![trigger base_state(decls, m0), file_state(m0, m1, config_from(document, src.text@), src), cli_state(m1, m2, cli)]
                {
                    let raw = config_from(document, src.text@);
                    &&& base_state(decls, m0)
                    &&& file_state(m0, m1, raw, src)
                    &&& cli_state(m1, m2, cli)
                    &&& run_result(m2, cfg)
                    &&& after == before + config_diagnostics(document, src.path@, src.text@)
                        + file_diagnostics(m0.cops@, raw, src) + cli_diagnostics(m1, cli) + run_diagnostics(m2)
                },
        },
    }
}

/// Resolve the effective configuration from the registry, the configuration
/// file if there is one, and the command line.
///
/// Problems inside an otherwise readable file are collected into
/// `diagnostics`; only malformed TOML is returned as an error.
pub fn resolve(
    source: Option<&ConfigSource>,
    decls: &'static [CopDecl],
    cli: &CliOverrides,
    diagnostics: &mut Diagnostics,
) -> (res: Result<ResolvedConfig, ConfigError>)
    ensures
        resolves(
            decls@,
            *cli,
            match source {
                Some(s) => Some(*s),
                None => None,
            },
            res,
            old(diagnostics)@,
            final(diagnostics)@,
        ),
{
    let ghost d0 = diagnostics@;
    let mut merged = base(decls);
    let ghost m0 = merged;
    let ghost mut d1 = d0;
    if let Some(src) = source {
        let raw = match parse(src, diagnostics) {
            Ok(raw) => raw,
            Err(e) => return Err(e),
        };
        proof {
            d1 = diagnostics@;
        }
        apply(&mut merged, &raw, src, diagnostics);
    }
    let ghost m1 = merged;
    let ghost d2 = diagnostics@;
    if !cli.is_empty() {
        apply_cli(&mut merged, cli, diagnostics);
    } else {
        proof {
            assert(cli.only.deep_view() + cli.except.deep_view() =~= Seq::<Seq<char>>::empty());
            assert(diagnostics@ =~= d2 + cli_diagnostics(m1, *cli));
        }
    }
    let ghost m2 = merged;
    let ghost d3 = diagnostics@;
    let cfg = run(merged, diagnostics);
    proof {
        match source {
            Some(src) => {
                let document = toml_document(src.text@)->Ok_0;
                let raw = config_from(document, src.text@);
                assert(file_state(m0, m1, raw, *src));
                assert(cli_state(m1, m2, *cli));
                assert(run_result(m2, cfg));
                assert(diagnostics@ == d0 + config_diagnostics(document, src.path@, src.text@)
                    + file_diagnostics(m0.cops@, raw, *src) + cli_diagnostics(m1, *cli) + run_diagnostics(m2));
            },
            None => {
                assert(m1 == m0);
                assert(cli_state(m0, m2, *cli));
                assert(run_result(m2, cfg));
                assert(diagnostics@ == d0 + cli_diagnostics(m0, *cli) + run_diagnostics(m2));
            },
        }
    }
    Ok(cfg)
}

/// Load the effective configuration.
///
/// Discovery, reading, merging, and validation, in that order. Problems
/// inside an otherwise readable file are collected into `diagnostics`; only a
/// loader failure or malformed TOML is returned as an error. When no
/// configuration file is found, the registry defaults are used.
pub fn load<L: SourceLoader>(
    loader: &L,
    decls: &'static [CopDecl],
    cli: &CliOverrides,
    diagnostics: &mut Diagnostics,
) -> (res: Result<ResolvedConfig, ConfigError>)
    ensures
        exists|found: Result<Option<String>, ConfigError>|
            #![trigger loader.discovers(found)]
            {
                &&& loader.discovers(found)
                &&& match found {
                    Err(e) => res == Err::<ResolvedConfig, ConfigError>(e) && final(diagnostics)@ == old(
                        diagnostics,
                    )@,
                    Ok(None) => resolves(decls@, *cli, None, res, old(diagnostics)@, final(diagnostics)@),
                    Ok(Some(path)) => exists|read: Result<ConfigSource, ConfigError>|
                        #![trigger loader.loads(path@, read)]
                        {
                            &&& loader.loads(path@, read)
                            &&& match read {
                                Err(e) => res == Err::<ResolvedConfig, ConfigError>(e) && final(diagnostics)@
                                    == old(diagnostics)@,
                                Ok(source) => resolves(
                                    decls@,
                                    *cli,
                                    Some(source),
                                    res,
                                    old(diagnostics)@,
                                    final(diagnostics)@,
                                ),
                            }
                        },
                }
            },
{
    let found = loader.discover();
    let ghost found_g = found;
    let path = match found {
        Ok(path) => path,
        Err(e) => return Err(e),
    };
    match path {
        Some(path) => {
            let read = loader.load(path.as_str());
            let ghost read_g = read;
            let source = match read {
                Ok(source) => source,
                Err(e) => {
                    assert(loader.loads(path@, read_g));
                    return Err(e);
                },
            };
            let res = resolve(Some(&source), decls, cli, diagnostics);
            assert(loader.loads(path@, read_g));
            res
        },
        None => resolve(None, decls, cli, diagnostics),
    }
}

/// Only a file that is not valid TOML stops resolution; every other problem
/// is a diagnostic.
pub proof fn only_malformed_toml_is_fatal(
    decls: Seq<CopDecl>,
    cli: CliOverrides,
    source: Option<ConfigSource>,
    res: Result<ResolvedConfig, ConfigError>,
    before: Seq<DiagnosticModel>,
    after: Seq<DiagnosticModel>,
)
    requires
        resolves(decls, cli, source, res, before, after),
    ensures
        res is Err <==> (source matches Some(src) && toml_document(src.text@) is Err),
{
}

/// Without a configuration file and without command-line selection, every
/// cop is resolved exactly as the registry declares it: its declared
/// `enabled`, severity and parameter defaults, all recorded as defaults.
pub proof fn no_file_gives_the_registry_defaults(
    decls: Seq<CopDecl>,
    cli: CliOverrides,
    res: Result<ResolvedConfig, ConfigError>,
    before: Seq<DiagnosticModel>,
    after: Seq<DiagnosticModel>,
    i: int,
    k: int,
)
    requires
        resolves(decls, cli, None, res, before, after),
        cli.only@.len() == 0,
        cli.except@.len() == 0,
        0 <= i < res->Ok_0.cops().len(),
    ensures
        ({
            let s = res->Ok_0.cops()[i];
            let specs = s.decl.params@;
            &&& s.enabled == s.decl.default_enabled
            &&& s.severity == s.decl.default_severity
            &&& recorded_origin(s.origins@, "enabled"@) == OriginModel::Default
            &&& recorded_origin(s.origins@, "severity"@) == OriginModel::Default
            &&& (0 <= k < specs.len() && last_with_key(specs, k)) ==> (lookup(s.params@, specs[k].key@) matches Some(v)
                && v@ == default_model(specs[k].kind))
        }),
{
    let cfg = res->Ok_0;
    let (m0, m1) = choose|m0: Merged, m1: Merged|
        {
            &&& base_state(decls, m0)
            &&& cli_state(m0, m1, cli)
            &&& run_result(m1, cfg)
            &&& after == before + cli_diagnostics(m0, cli) + run_diagnostics(m1)
        };
    let c0 = m0.cops@[i].1;
    assert(fresh_cop(decls, m0.cops@[i].0, c0));
    assert(cli_applied(c0, m1.cops@[i].1, cli));
    assert(settings_resolved(m1.cops@[i].1, cfg.cops()[i], m1.files@));
    let specs = cfg.cops()[i].decl.params@;
    if 0 <= k < specs.len() && last_with_key(specs, k) {
        lemma_lookup_has(m1.cops@[i].1.params@, specs[k].key@);
    }
}

} // verus!
