//! The systemd service-unit file format.
//!
//! A unit file is a sequence of lines: section headers (`[Unit]`,
//! `[Service]`, `[Install]`) and `key=value` parameters, each parameter
//! belonging to the most recent section. Parameter lists keep insertion
//! order and unique keys: inserting an existing key replaces its value in
//! place. Parsing starts from the default configuration and folds the file's
//! lines over it, so defaults survive unless a line overrides them.

use vstd::prelude::*;

use vstd::pervasive::VecAdditionalExecFns;

use crate::text::{
    chars_of, chars_to_string, spec_lines, spec_split_once, spec_trim, split_lines, split_once,
    starts_with, trim,
};

verus! {

/// A list of key/value parameters, as char sequences.
pub type ParamsView = Seq<(Seq<char>, Seq<char>)>;

/// The view of a parameter vector.
pub open spec fn spec_pairs_view(v: Seq<(String, String)>) -> ParamsView {
    v.map_values(|p: (String, String)| (p.0@, p.1@))
}

/// Keys occur at most once.
pub open spec fn spec_keys_distinct(ps: ParamsView) -> bool {
    forall|i: int, j: int| 0 <= i < j < ps.len() ==> ps[i].0 != ps[j].0
}

/// Insert `k=v`: replace the first pair holding `k`, or append a new pair.
pub open spec fn spec_params_insert(ps: ParamsView, k: Seq<char>, v: Seq<char>) -> ParamsView
    decreases ps.len(),
{
    if ps.len() == 0 {
        seq![(k, v)]
    } else if ps[0].0 == k {
        seq![(k, v)] + ps.drop_first()
    } else {
        seq![ps[0]] + spec_params_insert(ps.drop_first(), k, v)
    }
}

/// When `k` first occurs at `i`, insertion is an update in place.
proof fn lemma_params_insert_at(ps: ParamsView, k: Seq<char>, v: Seq<char>, i: int)
    requires
        0 <= i < ps.len(),
        ps[i].0 == k,
        forall|j: int| 0 <= j < i ==> ps[j].0 != k,
    ensures
        spec_params_insert(ps, k, v) == ps.update(i, (k, v)),
    decreases ps.len(),
{
    if i == 0 {
        assert(spec_params_insert(ps, k, v) =~= ps.update(0, (k, v)));
    } else {
        assert(forall|j: int| 0 <= j < i - 1 ==> ps.drop_first()[j].0 != k);
        lemma_params_insert_at(ps.drop_first(), k, v, i - 1);
        assert(spec_params_insert(ps, k, v) =~= ps.update(i, (k, v)));
    }
}

/// When `k` is absent, insertion appends.
proof fn lemma_params_insert_absent(ps: ParamsView, k: Seq<char>, v: Seq<char>)
    requires
        forall|j: int| 0 <= j < ps.len() ==> ps[j].0 != k,
    ensures
        spec_params_insert(ps, k, v) == ps.push((k, v)),
    decreases ps.len(),
{
    if ps.len() > 0 {
        lemma_params_insert_absent(ps.drop_first(), k, v);
        assert(spec_params_insert(ps, k, v) =~= ps.push((k, v)));
    }
}

/// Insertion keeps keys unique.
pub proof fn lemma_params_insert_distinct(ps: ParamsView, k: Seq<char>, v: Seq<char>)
    requires
        spec_keys_distinct(ps),
    ensures
        spec_keys_distinct(spec_params_insert(ps, k, v)),
{
    if exists|i: int| 0 <= i < ps.len() && ps[i].0 == k {
        let i = choose|i: int|
            0 <= i < ps.len() && ps[i].0 == k && forall|j: int| 0 <= j < i ==> ps[j].0 != k;
        lemma_first_occurrence(ps, k);
        lemma_params_insert_at(ps, k, v, i);
    } else {
        lemma_params_insert_absent(ps, k, v);
    }
}

/// If a key occurs, it has a first occurrence.
proof fn lemma_first_occurrence(ps: ParamsView, k: Seq<char>)
    requires
        exists|i: int| 0 <= i < ps.len() && ps[i].0 == k,
    ensures
        exists|i: int|
            0 <= i < ps.len() && ps[i].0 == k && (forall|j: int| 0 <= j < i ==> ps[j].0 != k),
    decreases ps.len(),
{
    if ps[0].0 == k {
        assert(0 <= 0 < ps.len() && ps[0].0 == k && (forall|j: int| 0 <= j < 0 ==> ps[j].0 != k));
    } else {
        let i0 = choose|i: int| 0 <= i < ps.len() && ps[i].0 == k;
        assert(ps.drop_first()[i0 - 1].0 == k);
        lemma_first_occurrence(ps.drop_first(), k);
        let i1 = choose|i: int|
            0 <= i < ps.drop_first().len() && ps.drop_first()[i].0 == k && (forall|j: int|
                0 <= j < i ==> ps.drop_first()[j].0 != k);
        assert(ps[i1 + 1].0 == k);
        assert(forall|j: int| 0 <= j < i1 + 1 ==> ps[j].0 != k) by {
            assert(forall|j: int| 1 <= j < i1 + 1 ==> ps[j].0 == ps.drop_first()[j - 1].0);
        }
    }
}

/// Insert `k=v` into a parameter vector, replacing the first pair with the
/// same key or appending.
pub fn params_insert(ps: &mut Vec<(String, String)>, k: String, v: String)
    ensures
        spec_pairs_view(final(ps)@) == spec_params_insert(spec_pairs_view(old(ps)@), k@, v@),
{
    let ghost ps0 = spec_pairs_view(ps@);
    let mut i: usize = 0;
    while i < ps.len()
        invariant
            i <= ps@.len(),
            ps@ == old(ps)@,
            ps0 == spec_pairs_view(ps@),
            forall|j: int| 0 <= j < i ==> ps0[j].0 != k@,
        decreases ps@.len() - i,
    {
        if ps[i].0 == k {
            proof {
                assert(ps0[i as int].0 == k@);
            }
            ps.set(i, (k, v));
            proof {
                lemma_params_insert_at(ps0, k@, v@, i as int);
                assert(spec_pairs_view(ps@) =~= ps0.update(i as int, (k@, v@)));
            }
            return ;
        }
        proof {
            assert(ps0[i as int].0 != k@);
        }
        i += 1;
    }
    ps.push((k, v));
    proof {
        lemma_params_insert_absent(ps0, k@, v@);
        assert(spec_pairs_view(ps@) =~= ps0.push((k@, v@)));
    }
}

// ---------------------------------------------------------------------------
// the configuration types
// ---------------------------------------------------------------------------

/// Parameters under the `[Unit]` section.
#[derive(Debug)]
pub struct SysdUnitConfig {
    pub params: Vec<(String, String)>,
}

/// Parameters under the `[Install]` section.
#[derive(Debug)]
pub struct SysdInstallConfig {
    pub params: Vec<(String, String)>,
}

/// Parameters under the `[Service]` section, with the service's environment
/// variables kept apart (each renders as an `Environment=key=value` line).
#[derive(Debug)]
pub struct SysdServiceConfig {
    params: Vec<(String, String)>,
    env: Vec<(String, String)>,
}

/// A whole systemd service file, and where it lives on disk.
#[derive(Debug)]
pub struct SystemdConfig {
    /// Absolute path to the systemd service file.
    pub file_location: String,
    pub unit: SysdUnitConfig,
    pub service: SysdServiceConfig,
    pub install: SysdInstallConfig,
}

impl View for SysdUnitConfig {
    type V = ParamsView;

    open spec fn view(&self) -> ParamsView {
        spec_pairs_view(self.params@)
    }
}

impl View for SysdInstallConfig {
    type V = ParamsView;

    open spec fn view(&self) -> ParamsView {
        spec_pairs_view(self.params@)
    }
}

impl View for SysdServiceConfig {
    type V = (ParamsView, ParamsView);

    closed spec fn view(&self) -> (ParamsView, ParamsView) {
        (spec_pairs_view(self.params@), spec_pairs_view(self.env@))
    }
}

/// The mathematical content of a `SystemdConfig`.
#[verifier::ext_equal]
pub ghost struct SystemdConfigView {
    pub file_location: Seq<char>,
    pub unit: ParamsView,
    pub service: ParamsView,
    pub env: ParamsView,
    pub install: ParamsView,
}

impl View for SystemdConfig {
    type V = SystemdConfigView;

    open spec fn view(&self) -> SystemdConfigView {
        SystemdConfigView {
            file_location: self.file_location@,
            unit: self.unit@,
            service: self.service@.0,
            env: self.service@.1,
            install: self.install@,
        }
    }
}

/// Every parameter list keeps its keys unique.
pub open spec fn spec_sysd_wf(v: SystemdConfigView) -> bool {
    &&& spec_keys_distinct(v.unit)
    &&& spec_keys_distinct(v.service)
    &&& spec_keys_distinct(v.env)
    &&& spec_keys_distinct(v.install)
}

impl SysdServiceConfig {
    /// A service section from its parameters and environment variables.
    pub fn new(params: Vec<(String, String)>, env: Vec<(String, String)>) -> (r: Self)
        ensures
            r@.0 == spec_pairs_view(params@),
            r@.1 == spec_pairs_view(env@),
    {
        SysdServiceConfig { params, env }
    }

    pub fn params(&self) -> (r: &Vec<(String, String)>)
        ensures
            spec_pairs_view(r@) == self@.0,
    {
        &self.params
    }

    pub fn env(&self) -> (r: &Vec<(String, String)>)
        ensures
            spec_pairs_view(r@) == self@.1,
    {
        &self.env
    }
}

// ---------------------------------------------------------------------------
// defaults
// ---------------------------------------------------------------------------

/// The default configuration: what an unparsed service file starts from.
pub open spec fn spec_sysd_default() -> SystemdConfigView {
    SystemdConfigView {
        file_location: "dump/hello.service"@,
        unit: seq![("Description"@, "My super awesome application"@)],
        service: seq![
            ("ExecStart"@, "echo 'Hello World'"@),
            ("Restart"@, "always"@),
            ("User"@, "root"@),
            ("Group"@, "root"@),
            ("WorkingDirectory"@, "/path/to/my-app"@),
        ],
        env: seq![("MyKey"@, "MyValue"@)],
        install: seq![("WantedBy"@, "multi-user.target"@)],
    }
}

fn pair_of(k: &str, v: &str) -> (r: (String, String))
    ensures
        r.0@ == k@,
        r.1@ == v@,
{
    (k.to_owned(), v.to_owned())
}

impl Default for SysdUnitConfig {
    fn default() -> (r: Self)
        ensures
            r@ == spec_sysd_default().unit,
            spec_keys_distinct(r@),
    {
        let mut params: Vec<(String, String)> = Vec::new();
        params.push(pair_of("Description", "My super awesome application"));
        let r = SysdUnitConfig { params };
        proof {
            assert(r@ =~= spec_sysd_default().unit);
        }
        r
    }
}

impl Default for SysdInstallConfig {
    fn default() -> (r: Self)
        ensures
            r@ == spec_sysd_default().install,
            spec_keys_distinct(r@),
    {
        let mut params: Vec<(String, String)> = Vec::new();
        params.push(pair_of("WantedBy", "multi-user.target"));
        let r = SysdInstallConfig { params };
        proof {
            assert(r@ =~= spec_sysd_default().install);
        }
        r
    }
}

impl Default for SysdServiceConfig {
    fn default() -> (r: Self)
        ensures
            r@.0 == spec_sysd_default().service,
            r@.1 == spec_sysd_default().env,
            spec_keys_distinct(r@.0),
            spec_keys_distinct(r@.1),
    {
        let mut params: Vec<(String, String)> = Vec::new();
        params.push(pair_of("ExecStart", "echo 'Hello World'"));
        params.push(("Restart".to_owned(), RestartOption::Always.as_text()));
        params.push(pair_of("User", "root"));
        params.push(pair_of("Group", "root"));
        params.push(pair_of("WorkingDirectory", "/path/to/my-app"));
        let mut env: Vec<(String, String)> = Vec::new();
        env.push(pair_of("MyKey", "MyValue"));
        let r = SysdServiceConfig { params, env };
        proof {
            assert(r@.0 =~= spec_sysd_default().service);
            assert(r@.1 =~= spec_sysd_default().env);
            reveal_strlit("ExecStart");
            reveal_strlit("Restart");
            reveal_strlit("User");
            reveal_strlit("Group");
            reveal_strlit("WorkingDirectory");
            // The five keys differ pairwise: already their lengths do.
            assert("ExecStart"@.len() == 9);
            assert("Restart"@.len() == 7);
            assert("User"@.len() == 4);
            assert("Group"@.len() == 5);
            assert("WorkingDirectory"@.len() == 16);
            assert forall|i: int, j: int| 0 <= i < j < r@.0.len() implies r@.0[i].0
                != r@.0[j].0 by {
                assert(r@.0[i].0.len() != r@.0[j].0.len());
            }
        }
        r
    }
}

impl Default for SystemdConfig {
    fn default() -> (r: Self)
        ensures
            r@ == spec_sysd_default(),
            spec_sysd_wf(r@),
    {
        SystemdConfig {
            file_location: "dump/hello.service".to_owned(),
            unit: Default::default(),
            service: Default::default(),
            install: Default::default(),
        }
    }
}

// ---------------------------------------------------------------------------
// parsing
// ---------------------------------------------------------------------------

/// Which section the parser stands in.
#[derive(Debug, Clone, Copy, PartialEq, Eq, Structural)]
pub enum SysdSection {
    Unit,
    Service,
    Install,
}

/// The parser's whole state: the configuration built so far and the section
/// the last header opened.
#[verifier::ext_equal]
pub ghost struct SysdParse {
    pub cfg: SystemdConfigView,
    pub section: Option<SysdSection>,
}

/// One line's effect on the parser state: blank lines and out-of-section or
/// separator-free lines change nothing, headers switch the section, and
/// `key=value` lines insert into the open section's parameters.
pub open spec fn spec_sysd_step(st: SysdParse, line: Seq<char>) -> SysdParse {
    let t = spec_trim(line);
    if t.len() == 0 {
        st
    } else if "[Unit]"@.is_prefix_of(t) {
        SysdParse { section: Some(SysdSection::Unit), ..st }
    } else if "[Service]"@.is_prefix_of(t) {
        SysdParse { section: Some(SysdSection::Service), ..st }
    } else if "[Install]"@.is_prefix_of(t) {
        SysdParse { section: Some(SysdSection::Install), ..st }
    } else {
        match st.section {
            None => st,
            Some(sec) => match spec_split_once(t, '=') {
                None => st,
                Some((k, v)) => match sec {
                    SysdSection::Unit => SysdParse {
                        cfg: SystemdConfigView {
                            unit: spec_params_insert(st.cfg.unit, k, v),
                            ..st.cfg
                        },
                        ..st
                    },
                    SysdSection::Service => SysdParse {
                        cfg: SystemdConfigView {
                            service: spec_params_insert(st.cfg.service, k, v),
                            ..st.cfg
                        },
                        ..st
                    },
                    SysdSection::Install => SysdParse {
                        cfg: SystemdConfigView {
                            install: spec_params_insert(st.cfg.install, k, v),
                            ..st.cfg
                        },
                        ..st
                    },
                },
            },
        }
    }
}

/// The parser state after all of `lines`, from `st`.
pub open spec fn spec_sysd_fold(st: SysdParse, lines: Seq<Seq<char>>) -> SysdParse
    decreases lines.len(),
{
    if lines.len() == 0 {
        st
    } else {
        spec_sysd_fold(spec_sysd_step(st, lines[0]), lines.drop_first())
    }
}

proof fn lemma_sysd_fold_snoc(st: SysdParse, lines: Seq<Seq<char>>, x: Seq<char>)
    ensures
        spec_sysd_fold(st, lines.push(x)) == spec_sysd_step(spec_sysd_fold(st, lines), x),
    decreases lines.len(),
{
    let p = lines.push(x);
    if lines.len() == 0 {
        assert(p[0] == x);
        assert(p.drop_first() =~= Seq::<Seq<char>>::empty());
        assert(spec_sysd_fold(st, p) == spec_sysd_fold(spec_sysd_step(st, x), p.drop_first()));
        assert(spec_sysd_fold(spec_sysd_step(st, x), p.drop_first()) == spec_sysd_step(st, x));
        assert(spec_sysd_fold(st, lines) == st);
    } else {
        assert(p[0] == lines[0]);
        assert(p.drop_first() =~= lines.drop_first().push(x));
        assert(spec_sysd_fold(st, p) == spec_sysd_fold(
            spec_sysd_step(st, lines[0]),
            lines.drop_first().push(x),
        ));
        lemma_sysd_fold_snoc(spec_sysd_step(st, lines[0]), lines.drop_first(), x);
        assert(spec_sysd_fold(st, lines) == spec_sysd_fold(
            spec_sysd_step(st, lines[0]),
            lines.drop_first(),
        ));
    }
}

/// One parse step keeps every key list unique.
proof fn lemma_sysd_step_wf(st: SysdParse, line: Seq<char>)
    requires
        spec_sysd_wf(st.cfg),
    ensures
        spec_sysd_wf(spec_sysd_step(st, line).cfg),
{
    let t = spec_trim(line);
    if t.len() != 0 && !"[Unit]"@.is_prefix_of(t) && !"[Service]"@.is_prefix_of(t)
        && !"[Install]"@.is_prefix_of(t) {
        match st.section {
            None => {},
            Some(sec) => match spec_split_once(t, '=') {
                None => {},
                Some((k, v)) => {
                    lemma_params_insert_distinct(st.cfg.unit, k, v);
                    lemma_params_insert_distinct(st.cfg.service, k, v);
                    lemma_params_insert_distinct(st.cfg.install, k, v);
                },
            },
        }
    }
}

/// The configuration a service file's text denotes: the default
/// configuration, folded through the file's lines.
pub open spec fn spec_parse_systemd(s: Seq<char>) -> SystemdConfigView {
    spec_sysd_fold(
        SysdParse { cfg: spec_sysd_default(), section: None },
        spec_lines(s),
    ).cfg
}

impl SystemdConfig {
    /// Parse a service file. Total: unrecognized lines are skipped, and the
    /// defaults stand where the file says nothing.
    pub fn parse(file: &str) -> (r: SystemdConfig)
        ensures
            r@ == spec_parse_systemd(file@),
            spec_sysd_wf(r@),
    {
        let cs = chars_of(file);
        let lines = split_lines(cs.as_slice());
        let ghost lview = lines@.map_values(|l: Vec<char>| l@);
        let ghost init = SysdParse { cfg: spec_sysd_default(), section: None };
        let mut this = SystemdConfig::default();
        let mut section: Option<SysdSection> = None;
        let header_unit = chars_of("[Unit]");
        let header_service = chars_of("[Service]");
        let header_install = chars_of("[Install]");
        let mut i: usize = 0;
        while i < lines.len()
            invariant
                lview == lines@.map_values(|l: Vec<char>| l@),
                lview == spec_lines(file@),
                i <= lines@.len(),
                header_unit@ == "[Unit]"@,
                header_service@ == "[Service]"@,
                header_install@ == "[Install]"@,
                spec_sysd_fold(init, lview.subrange(0, i as int)) == (SysdParse {
                    cfg: this@,
                    section,
                }),
                spec_sysd_wf(this@),
            decreases lines@.len() - i,
        {
            let ghost st = SysdParse { cfg: this@, section };
            let line = trim(lines[i].as_slice());
            if line.len() == 0 {
                // blank line: nothing changes
            } else if starts_with(line, header_unit.as_slice()) {
                section = Some(SysdSection::Unit);
            } else if starts_with(line, header_service.as_slice()) {
                section = Some(SysdSection::Service);
            } else if starts_with(line, header_install.as_slice()) {
                section = Some(SysdSection::Install);
            } else {
                match section {
                    None => {},
                    Some(sec) => {
                        match split_once(line, '=') {
                            None => {},
                            Some((k, v)) => {
                                let ks = chars_to_string(&k);
                                let vs = chars_to_string(&v);
                                proof {
                                    lemma_params_insert_distinct(this@.unit, ks@, vs@);
                                    lemma_params_insert_distinct(this@.service, ks@, vs@);
                                    lemma_params_insert_distinct(this@.install, ks@, vs@);
                                }
                                match sec {
                                    SysdSection::Unit => params_insert(
                                        &mut this.unit.params,
                                        ks,
                                        vs,
                                    ),
                                    SysdSection::Service => params_insert(
                                        &mut this.service.params,
                                        ks,
                                        vs,
                                    ),
                                    SysdSection::Install => params_insert(
                                        &mut this.install.params,
                                        ks,
                                        vs,
                                    ),
                                }
                            },
                        }
                    },
                }
            }
            proof {
                assert(spec_sysd_step(st, lview[i as int]) == (SysdParse {
                    cfg: this@,
                    section,
                }));
                assert(lview.subrange(0, i as int).push(lview[i as int]) =~= lview.subrange(
                    0,
                    i as int + 1,
                ));
                lemma_sysd_fold_snoc(init, lview.subrange(0, i as int), lview[i as int]);
            }
            i += 1;
        }
        proof {
            assert(lview.subrange(0, lview.len() as int) =~= lview);
        }
        this
    }
}

// ---------------------------------------------------------------------------
// rendering
// ---------------------------------------------------------------------------

/// The text of a parameter list: one `key=value` line per pair, in order.
pub open spec fn spec_render_pairs(ps: ParamsView) -> Seq<char>
    decreases ps.len(),
{
    if ps.len() == 0 {
        Seq::empty()
    } else {
        spec_render_pairs(ps.drop_last()) + ps.last().0 + seq!['='] + ps.last().1 + seq!['\n']
    }
}

/// The text of the environment list: one `Environment=key=value` line per pair.
pub open spec fn spec_render_env(ps: ParamsView) -> Seq<char>
    decreases ps.len(),
{
    if ps.len() == 0 {
        Seq::empty()
    } else {
        spec_render_env(ps.drop_last()) + "Environment="@ + ps.last().0 + seq!['='] + ps.last().1
            + seq!['\n']
    }
}

/// The whole service file: the three sections in order, each closed by a
/// blank line.
pub open spec fn spec_render_systemd(v: SystemdConfigView) -> Seq<char> {
    "[Unit]\n"@ + spec_render_pairs(v.unit) + seq!['\n'] + "[Service]\n"@ + spec_render_pairs(
        v.service,
    ) + spec_render_env(v.env) + seq!['\n'] + "[Install]\n"@ + spec_render_pairs(v.install) + seq![
        '\n',
    ]
}

fn render_pairs_into(out: &mut Vec<char>, ps: &Vec<(String, String)>)
    ensures
        final(out)@ == old(out)@ + spec_render_pairs(spec_pairs_view(ps@)),
{
    let ghost pv = spec_pairs_view(ps@);
    let mut i: usize = 0;
    while i < ps.len()
        invariant
            i <= ps@.len(),
            pv == spec_pairs_view(ps@),
            out@ == old(out)@ + spec_render_pairs(pv.subrange(0, i as int)),
        decreases ps@.len() - i,
    {
        crate::text::push_str_chars(out, ps[i].0.as_str());
        out.push('=');
        crate::text::push_str_chars(out, ps[i].1.as_str());
        out.push('\n');
        i += 1;
        proof {
            let pre = pv.subrange(0, i as int);
            assert(pre.drop_last() =~= pv.subrange(0, i - 1));
            assert(pre.last() == pv[i - 1]);
            assert(out@ =~= old(out)@ + spec_render_pairs(pre));
        }
    }
    proof {
        assert(pv.subrange(0, pv.len() as int) =~= pv);
    }
}

pub(crate) fn render_env_into(out: &mut Vec<char>, ps: &Vec<(String, String)>)
    ensures
        final(out)@ == old(out)@ + spec_render_env(spec_pairs_view(ps@)),
{
    let ghost pv = spec_pairs_view(ps@);
    let mut i: usize = 0;
    while i < ps.len()
        invariant
            i <= ps@.len(),
            pv == spec_pairs_view(ps@),
            out@ == old(out)@ + spec_render_env(pv.subrange(0, i as int)),
        decreases ps@.len() - i,
    {
        crate::text::push_str_chars(out, "Environment=");
        crate::text::push_str_chars(out, ps[i].0.as_str());
        out.push('=');
        crate::text::push_str_chars(out, ps[i].1.as_str());
        out.push('\n');
        i += 1;
        proof {
            let pre = pv.subrange(0, i as int);
            assert(pre.drop_last() =~= pv.subrange(0, i - 1));
            assert(pre.last() == pv[i - 1]);
            assert(out@ =~= old(out)@ + spec_render_env(pre));
        }
    }
    proof {
        assert(pv.subrange(0, pv.len() as int) =~= pv);
    }
}

impl SystemdConfig {
    /// The service file's text, ready to be written to `file_location`.
    pub fn to_text(&self) -> (s: String)
        ensures
            s@ == spec_render_systemd(self@),
    {
        let mut out: Vec<char> = Vec::new();
        crate::text::push_str_chars(&mut out, "[Unit]\n");
        render_pairs_into(&mut out, &self.unit.params);
        out.push('\n');
        crate::text::push_str_chars(&mut out, "[Service]\n");
        render_pairs_into(&mut out, self.service.params());
        render_env_into(&mut out, self.service.env());
        out.push('\n');
        crate::text::push_str_chars(&mut out, "[Install]\n");
        render_pairs_into(&mut out, &self.install.params);
        out.push('\n');
        proof {
            assert(out@ =~= spec_render_systemd(self@));
        }
        chars_to_string(&out)
    }
}

/// Systemd service restart policies.
#[derive(Debug, Clone, Copy, PartialEq, Eq, Structural)]
pub enum RestartOption {
    No,
    OnSuccess,
    OnFailure,
    OnAbnormal,
    OnWatchdog,
    OnAbort,
    Always,
}

/// The `Restart=` value each policy renders as. `OnSuccess` renders as
/// `no`, matching the behavior this format has always had.
pub open spec fn spec_restart_text(r: RestartOption) -> Seq<char> {
    match r {
        RestartOption::No => "no"@,
        RestartOption::OnSuccess => "no"@,
        RestartOption::OnFailure => "on-failure"@,
        RestartOption::OnAbnormal => "on-abnormal"@,
        RestartOption::OnWatchdog => "on-watchdog"@,
        RestartOption::OnAbort => "on-abort"@,
        RestartOption::Always => "always"@,
    }
}

impl RestartOption {
    /// The textual `Restart=` value.
    pub fn as_text(&self) -> (s: String)
        ensures
            s@ == spec_restart_text(*self),
    {
        match self {
            RestartOption::No => "no".to_owned(),
            RestartOption::OnSuccess => "no".to_owned(),
            RestartOption::OnFailure => "on-failure".to_owned(),
            RestartOption::OnAbnormal => "on-abnormal".to_owned(),
            RestartOption::OnWatchdog => "on-watchdog".to_owned(),
            RestartOption::OnAbort => "on-abort".to_owned(),
            RestartOption::Always => "always".to_owned(),
        }
    }
}

} // verus!
