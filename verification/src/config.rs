use vstd::prelude::*;

use crate::text::{spec_lines, spec_tokens, spec_trim, split_lines, split_tokens, str_eq, trim};

verus! {

/// Why a configuration was rejected: a directive given the wrong number of
/// values, an unrecognised load-balancing algorithm token, or an unknown
/// directive name.
#[derive(Clone, Copy, Debug, PartialEq, Eq, Structural)]
pub enum ConfigError {
    InvalidDirective,
    InvalidAlgorithm,
    UnknownDirective,
}

/// The ghost shape of a configuration.
#[verifier::ext_equal]
pub struct ConfigModel {
    pub listen: Seq<char>,
    pub index: Seq<char>,
    pub pass: Seq<char>,
    pub deny_files: Seq<Seq<char>>,
    pub deny_extensions: Seq<Seq<char>>,
    pub lb_algo: Seq<char>,
    pub servers: Seq<Seq<char>>,
    pub root: Seq<char>,
    pub deny_directories: Seq<Seq<char>>,
    pub allow_directories: Seq<Seq<char>>,
}

/// The algorithm tokens the configuration accepts.
pub open spec fn is_algo_tok(t: Seq<char>) -> bool {
    ||| t == "none"@
    ||| t == "roundrobin"@
    ||| t == "leastconn"@
    ||| t == "source"@
    ||| t == "off"@
}

/// What one configuration line does to the configuration: blank lines and
/// `#` comments change nothing; a directive replaces its single value or
/// extends its list with all values given; a wrong value count, an unknown
/// algorithm token, or an unknown directive name is an error.
pub open spec fn spec_config_line(m: ConfigModel, line: Seq<char>) -> Result<
    ConfigModel,
    ConfigError,
> {
    let t = spec_trim(line);
    if t.len() == 0 || t[0] == '#' {
        Ok(m)
    } else {
        let toks = spec_tokens(t);
        let rest = toks.subrange(1, toks.len() as int);
        if toks.len() == 0 {
            Ok(m)
        } else if toks[0] == "listen"@ {
            if toks.len() != 2 {
                Err(ConfigError::InvalidDirective)
            } else {
                Ok(ConfigModel { listen: toks[1], ..m })
            }
        } else if toks[0] == "index"@ {
            if toks.len() != 2 {
                Err(ConfigError::InvalidDirective)
            } else {
                Ok(ConfigModel { index: toks[1], ..m })
            }
        } else if toks[0] == "pass"@ {
            if toks.len() != 2 {
                Err(ConfigError::InvalidDirective)
            } else {
                Ok(ConfigModel { pass: toks[1], ..m })
            }
        } else if toks[0] == "deny_files"@ {
            if toks.len() < 2 {
                Err(ConfigError::InvalidDirective)
            } else {
                Ok(ConfigModel { deny_files: m.deny_files + rest, ..m })
            }
        } else if toks[0] == "deny_extensions"@ {
            if toks.len() < 2 {
                Err(ConfigError::InvalidDirective)
            } else {
                Ok(ConfigModel { deny_extensions: m.deny_extensions + rest, ..m })
            }
        } else if toks[0] == "alb_algo"@ {
            if toks.len() != 2 {
                Err(ConfigError::InvalidDirective)
            } else if !is_algo_tok(toks[1]) {
                Err(ConfigError::InvalidAlgorithm)
            } else {
                Ok(ConfigModel { lb_algo: toks[1], ..m })
            }
        } else if toks[0] == "servers"@ {
            if toks.len() < 2 {
                Err(ConfigError::InvalidDirective)
            } else {
                Ok(ConfigModel { servers: m.servers + rest, ..m })
            }
        } else if toks[0] == "root"@ {
            if toks.len() != 2 {
                Err(ConfigError::InvalidDirective)
            } else {
                Ok(ConfigModel { root: toks[1], ..m })
            }
        } else if toks[0] == "deny_directories"@ {
            if toks.len() < 2 {
                Err(ConfigError::InvalidDirective)
            } else {
                Ok(ConfigModel { deny_directories: m.deny_directories + rest, ..m })
            }
        } else if toks[0] == "allow_directories"@ {
            if toks.len() < 2 {
                Err(ConfigError::InvalidDirective)
            } else {
                Ok(ConfigModel { allow_directories: m.allow_directories + rest, ..m })
            }
        } else {
            Err(ConfigError::UnknownDirective)
        }
    }
}

/// The configuration after the lines from `i` on, or the first error.
pub open spec fn spec_config_run(m: ConfigModel, ls: Seq<Seq<char>>, i: int) -> Result<
    ConfigModel,
    ConfigError,
>
    decreases ls.len() - i,
{
    if i < 0 || i >= ls.len() {
        Ok(m)
    } else {
        match spec_config_line(m, ls[i]) {
            Err(e) => Err(e),
            Ok(m2) => spec_config_run(m2, ls, i + 1),
        }
    }
}

/// The configuration after the lines from `i` on, stopping quietly at the
/// first bad line: the state a parse leaves behind when it fails.
pub open spec fn spec_config_partial(m: ConfigModel, ls: Seq<Seq<char>>, i: int) -> ConfigModel
    decreases ls.len() - i,
{
    if i < 0 || i >= ls.len() {
        m
    } else {
        match spec_config_line(m, ls[i]) {
            Err(_) => m,
            Ok(m2) => spec_config_partial(m2, ls, i + 1),
        }
    }
}

/// The startup configuration: where to listen, what to serve, and how to
/// balance load over which upstream servers.
#[derive(Debug, Clone)]
pub struct Config {
    listen: String,
    index: String,
    pass: String,
    deny_files: Vec<String>,
    deny_extensions: Vec<String>,
    lb_algo: String,
    servers: Vec<String>,
    root: String,
    deny_directories: Vec<String>,
    allow_directories: Vec<String>,
}

/// Appends clones of `src[1..]` to `dst`.
fn extend_values(dst: &mut Vec<String>, src: &Vec<String>)
    requires
        src@.len() >= 1,
    ensures
        final(dst).deep_view() == old(dst).deep_view() + src.deep_view().subrange(
            1,
            src.deep_view().len() as int,
        ),
{
    let ghost base = dst.deep_view();
    let ghost sv = src.deep_view();
    let n = src.len();
    let mut k: usize = 1;
    proof {
        assert(dst.deep_view() =~= base + sv.subrange(1, 1));
    }
    while k < n
        invariant
            1 <= k <= n,
            n == sv.len(),
            sv == src.deep_view(),
            dst.deep_view() == base + sv.subrange(1, k as int),
        decreases n - k,
    {
        let ghost prev = dst.deep_view();
        let item = src[k].clone();
        dst.push(item);
        proof {
            assert(src.deep_view()[k as int] == src@[k as int]@);
            assert(dst.deep_view() =~= prev.push(sv[k as int]));
            assert(prev.push(sv[k as int]) =~= base + sv.subrange(1, k as int + 1));
        }
        k += 1;
    }
}

impl Config {
    /// The ghost shape of this configuration.
    pub closed spec fn model(&self) -> ConfigModel {
        ConfigModel {
            listen: self.listen@,
            index: self.index@,
            pass: self.pass@,
            deny_files: self.deny_files.deep_view(),
            deny_extensions: self.deny_extensions.deep_view(),
            lb_algo: self.lb_algo@,
            servers: self.servers.deep_view(),
            root: self.root@,
            deny_directories: self.deny_directories.deep_view(),
            allow_directories: self.allow_directories.deep_view(),
        }
    }

    /// The defaults: listen on 3000, serve `index.php` from `.`, no
    /// balancing (`none`), no servers and no deny or allow lists.
    pub fn new() -> (r: Self)
        ensures
            r.model().listen == "3000"@,
            r.model().index == "index.php"@,
            r.model().pass == ""@,
            r.model().deny_files == Seq::<Seq<char>>::empty(),
            r.model().deny_extensions == Seq::<Seq<char>>::empty(),
            r.model().lb_algo == "none"@,
            r.model().servers == Seq::<Seq<char>>::empty(),
            r.model().root == "."@,
            r.model().deny_directories == Seq::<Seq<char>>::empty(),
            r.model().allow_directories == Seq::<Seq<char>>::empty(),
    {
        let r = Config {
            listen: "3000".to_owned(),
            index: "index.php".to_owned(),
            pass: "".to_owned(),
            deny_files: Vec::new(),
            deny_extensions: Vec::new(),
            lb_algo: "none".to_owned(),
            servers: Vec::new(),
            root: ".".to_owned(),
            deny_directories: Vec::new(),
            allow_directories: Vec::new(),
        };
        proof {
            assert(r.model().deny_files =~= Seq::<Seq<char>>::empty());
            assert(r.model().deny_extensions =~= Seq::<Seq<char>>::empty());
            assert(r.model().servers =~= Seq::<Seq<char>>::empty());
            assert(r.model().deny_directories =~= Seq::<Seq<char>>::empty());
            assert(r.model().allow_directories =~= Seq::<Seq<char>>::empty());
        }
        r
    }

    /// Applies one configuration line; on an error the configuration is left
    /// as it was.
    fn apply_line(&mut self, line: &str) -> (r: Result<(), ConfigError>)
        ensures
            ({
                match spec_config_line(old(self).model(), line@) {
                    Ok(m) => r is Ok && final(self).model() == m,
                    Err(e) => (r matches Err(e2) && e2 == e) && *final(self) == *old(self),
                }
            }),
    {
        let t = trim(line);
        if t.as_str().is_empty() {
            return Ok(());
        }
        if t.as_str().get_char(0) == '#' {
            return Ok(());
        }
        let toks = split_tokens(t.as_str());
        let ghost tks = toks.deep_view();
        if toks.len() == 0 {
            return Ok(());
        }
        proof {
            assert(toks@[0]@ == tks[0]);
        }
        if str_eq(toks[0].as_str(), "listen") {
            if toks.len() != 2 {
                return Err(ConfigError::InvalidDirective);
            }
            proof {
                assert(toks@[1]@ == tks[1]);
            }
            self.listen = toks[1].clone();
            proof {
                assert(self.model() =~= (ConfigModel { listen: tks[1], ..old(self).model() }));
            }
            return Ok(());
        }
        if str_eq(toks[0].as_str(), "index") {
            if toks.len() != 2 {
                return Err(ConfigError::InvalidDirective);
            }
            proof {
                assert(toks@[1]@ == tks[1]);
            }
            self.index = toks[1].clone();
            proof {
                assert(self.model() =~= (ConfigModel { index: tks[1], ..old(self).model() }));
            }
            return Ok(());
        }
        if str_eq(toks[0].as_str(), "pass") {
            if toks.len() != 2 {
                return Err(ConfigError::InvalidDirective);
            }
            proof {
                assert(toks@[1]@ == tks[1]);
            }
            self.pass = toks[1].clone();
            proof {
                assert(self.model() =~= (ConfigModel { pass: tks[1], ..old(self).model() }));
            }
            return Ok(());
        }
        if str_eq(toks[0].as_str(), "deny_files") {
            if toks.len() < 2 {
                return Err(ConfigError::InvalidDirective);
            }
            extend_values(&mut self.deny_files, &toks);
            proof {
                assert(self.model() =~= (ConfigModel {
                    deny_files: old(self).model().deny_files + tks.subrange(1, tks.len() as int),
                    ..old(self).model()
                }));
            }
            return Ok(());
        }
        if str_eq(toks[0].as_str(), "deny_extensions") {
            if toks.len() < 2 {
                return Err(ConfigError::InvalidDirective);
            }
            extend_values(&mut self.deny_extensions, &toks);
            proof {
                assert(self.model() =~= (ConfigModel {
                    deny_extensions: old(self).model().deny_extensions + tks.subrange(
                        1,
                        tks.len() as int,
                    ),
                    ..old(self).model()
                }));
            }
            return Ok(());
        }
        if str_eq(toks[0].as_str(), "alb_algo") {
            if toks.len() != 2 {
                return Err(ConfigError::InvalidDirective);
            }
            proof {
                assert(toks@[1]@ == tks[1]);
            }
            let ok = str_eq(toks[1].as_str(), "none") || str_eq(toks[1].as_str(), "roundrobin")
                || str_eq(toks[1].as_str(), "leastconn") || str_eq(toks[1].as_str(), "source")
                || str_eq(toks[1].as_str(), "off");
            if !ok {
                return Err(ConfigError::InvalidAlgorithm);
            }
            self.lb_algo = toks[1].clone();
            proof {
                assert(self.model() =~= (ConfigModel { lb_algo: tks[1], ..old(self).model() }));
            }
            return Ok(());
        }
        if str_eq(toks[0].as_str(), "servers") {
            if toks.len() < 2 {
                return Err(ConfigError::InvalidDirective);
            }
            extend_values(&mut self.servers, &toks);
            proof {
                assert(self.model() =~= (ConfigModel {
                    servers: old(self).model().servers + tks.subrange(1, tks.len() as int),
                    ..old(self).model()
                }));
            }
            return Ok(());
        }
        if str_eq(toks[0].as_str(), "root") {
            if toks.len() != 2 {
                return Err(ConfigError::InvalidDirective);
            }
            proof {
                assert(toks@[1]@ == tks[1]);
            }
            self.root = toks[1].clone();
            proof {
                assert(self.model() =~= (ConfigModel { root: tks[1], ..old(self).model() }));
            }
            return Ok(());
        }
        if str_eq(toks[0].as_str(), "deny_directories") {
            if toks.len() < 2 {
                return Err(ConfigError::InvalidDirective);
            }
            extend_values(&mut self.deny_directories, &toks);
            proof {
                assert(self.model() =~= (ConfigModel {
                    deny_directories: old(self).model().deny_directories + tks.subrange(
                        1,
                        tks.len() as int,
                    ),
                    ..old(self).model()
                }));
            }
            return Ok(());
        }
        if str_eq(toks[0].as_str(), "allow_directories") {
            if toks.len() < 2 {
                return Err(ConfigError::InvalidDirective);
            }
            extend_values(&mut self.allow_directories, &toks);
            proof {
                assert(self.model() =~= (ConfigModel {
                    allow_directories: old(self).model().allow_directories + tks.subrange(
                        1,
                        tks.len() as int,
                    ),
                    ..old(self).model()
                }));
            }
            return Ok(());
        }
        Err(ConfigError::UnknownDirective)
    }

    /// Reads directives from the text of a configuration file, line by line,
    /// and applies each to this configuration; stops at the first bad line
    /// and says what was wrong with it.
    pub fn parse(&mut self, contents: &str) -> (r: Result<(), ConfigError>)
        ensures
            final(self).model() == spec_config_partial(
                old(self).model(),
                spec_lines(contents@),
                0,
            ),
            ({
                match spec_config_run(old(self).model(), spec_lines(contents@), 0) {
                    Ok(_) => r is Ok,
                    Err(e) => r matches Err(e2) && e2 == e,
                }
            }),
    {
        let ghost m0 = self.model();
        let lines = split_lines(contents);
        let ghost ls = lines.deep_view();
        let n = lines.len();
        let mut i: usize = 0;
        while i < n
            invariant
                i <= n,
                n == ls.len(),
                ls == lines.deep_view(),
                ls == spec_lines(contents@),
                m0 == old(self).model(),
                spec_config_run(m0, ls, 0) == spec_config_run(self.model(), ls, i as int),
                spec_config_partial(m0, ls, 0) == spec_config_partial(self.model(), ls, i as int),
            decreases n - i,
        {
            proof {
                assert(lines@[i as int]@ == ls[i as int]);
            }
            let ghost before = self.model();
            match self.apply_line(lines[i].as_str()) {
                Err(e) => {
                    proof {
                        assert(spec_config_line(before, ls[i as int]) == Err::<
                            ConfigModel,
                            ConfigError,
                        >(e));
                        assert(spec_config_run(before, ls, i as int) == Err::<
                            ConfigModel,
                            ConfigError,
                        >(e));
                        assert(spec_config_partial(before, ls, i as int) == before);
                    }
                    return Err(e);
                },
                Ok(()) => {},
            }
            i += 1;
        }
        Ok(())
    }

    /// The port directive's value.
    pub fn listen(&self) -> (r: &str)
        ensures
            r@ == self.model().listen,
    {
        self.listen.as_str()
    }

    /// The index file to serve.
    pub fn index(&self) -> (r: &str)
        ensures
            r@ == self.model().index,
    {
        self.index.as_str()
    }

    /// The interpreter for the passthrough mode.
    pub fn pass(&self) -> (r: &str)
        ensures
            r@ == self.model().pass,
    {
        self.pass.as_str()
    }

    /// The file names that must not be served.
    pub fn deny_files(&self) -> (r: &Vec<String>)
        ensures
            r.deep_view() == self.model().deny_files,
    {
        &self.deny_files
    }

    /// The file extensions that must not be served.
    pub fn deny_extensions(&self) -> (r: &Vec<String>)
        ensures
            r.deep_view() == self.model().deny_extensions,
    {
        &self.deny_extensions
    }

    /// The chosen load-balancing algorithm token.
    pub fn lb_algo(&self) -> (r: &str)
        ensures
            r@ == self.model().lb_algo,
    {
        self.lb_algo.as_str()
    }

    /// The upstream server addresses, cloned.
    pub fn servers(&self) -> (r: Vec<String>)
        ensures
            r.deep_view() == self.model().servers,
    {
        let n = self.servers.len();
        let mut out: Vec<String> = Vec::new();
        let mut k: usize = 0;
        proof {
            assert(out.deep_view() =~= self.model().servers.subrange(0, 0));
        }
        while k < n
            invariant
                k <= n,
                n == self.servers@.len(),
                out.deep_view() == self.model().servers.subrange(0, k as int),
            decreases n - k,
        {
            let ghost prev = out.deep_view();
            let item = self.servers[k].clone();
            out.push(item);
            proof {
                assert(self.model().servers[k as int] == self.servers@[k as int]@);
                assert(out.deep_view() =~= prev.push(self.model().servers[k as int]));
                assert(out.deep_view() =~= self.model().servers.subrange(0, k as int + 1));
            }
            k += 1;
        }
        proof {
            assert(self.model().servers.subrange(0, n as int) =~= self.model().servers);
        }
        out
    }

    /// The document root directory.
    pub fn root(&self) -> (r: &str)
        ensures
            r@ == self.model().root,
    {
        self.root.as_str()
    }

    /// The directories that must not be served.
    pub fn deny_directories(&self) -> (r: &Vec<String>)
        ensures
            r.deep_view() == self.model().deny_directories,
    {
        &self.deny_directories
    }

    /// The directories that may be served.
    pub fn allow_directories(&self) -> (r: &Vec<String>)
        ensures
            r.deep_view() == self.model().allow_directories,
    {
        &self.allow_directories
    }
}

} // verus!
