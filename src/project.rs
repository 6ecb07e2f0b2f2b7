use vstd::prelude::*;

use crate::render::{render, rendered_of, vars_view, TemplateError};
use crate::text::{strip_cr, without_cr, i32_text, int_text, int_text_value, parse_i32, split_by, split_on, strings_view, trimmed, trimmed_of};

verus! {

/// Why a project value could not be worked out.
pub enum ProjectError {
    /// No version is set and no version header was found.
    NoVersion,
    /// A version number part in the header is not an integer.
    VersionPart(String),
    /// A template of the project could not be rendered.
    Template(TemplateError),
}

/// A project's description.
#[derive(Clone)]
pub struct Project {
    pub name: String,
    pub prefix: String,
    pub author: String,
    pub template: String,
    pub version: String,
    pub modname: String,
    pub mainprefix: String,
    pub header_exts: Vec<(String, String)>,
    pub includes: Vec<String>,
    pub exclude: Vec<String>,
    pub files: Vec<String>,
    pub reuse_private_key: Option<bool>,
    pub key_name: String,
    pub sig_name: String,
    pub sig_version: u8,
    pub check: Vec<String>,
    pub prebuild: Vec<String>,
    pub postbuild: Vec<String>,
    pub releasebuild: Vec<String>,
}

/// The header folders used where none is configured: the project's
/// shared header folder, where the caller found one.
pub fn default_includes(found: Option<String>) -> (r: Vec<String>)
    ensures
        match found {
            Some(f) => strings_view(r@) == seq![f@],
            None => r@.len() == 0,
        },
{
    let mut folders: Vec<String> = Vec::new();
    if let Some(f) = found {
        folders.push(f);
        assert(strings_view(folders@) =~= seq![folders@[0]@]);
    }
    folders
}

pub fn default_mainprefix() -> (r: String)
    ensures
        r@ == "z"@,
{
    "z".to_owned()
}

pub fn default_reuse_private_key() -> (r: Option<bool>)
    ensures
        r is None,
{
    None
}

pub fn default_sig_version() -> (r: u8)
    ensures
        r == 3,
{
    3
}

/// A version header's numbers and build text, as read so far.
pub type VersionFields = (int, int, int, Seq<char>);

/// A version number part: an `i32` in decimal.
pub open spec fn version_part(value: Seq<char>) -> Option<int> {
    match int_text_value(value) {
        Some(v) => if i32::MIN <= v <= i32::MAX {
            Some(v)
        } else {
            None
        },
        None => None,
    }
}

/// One header line, split at spaces, applied to the fields: a
/// `#define MAJOR|MINOR|PATCHLVL|PATCH|BUILD value` line sets that field;
/// a number that is not one is an error naming the value; any other line
/// changes nothing.
pub open spec fn apply_define(st: VersionFields, words: Seq<Seq<char>>) -> Result<VersionFields, Seq<char>> {
    if words.len() < 3 || words[0] != "#define"@ {
        Ok(st)
    } else {
        let key = words[1];
        let value = words[2];
        if key == "MAJOR"@ || key == "MINOR"@ || key == "PATCHLVL"@ || key == "PATCH"@ {
            match version_part(value) {
                None => Err(value),
                Some(n) => if key == "MAJOR"@ {
                    Ok((n, st.1, st.2, st.3))
                } else if key == "MINOR"@ {
                    Ok((st.0, n, st.2, st.3))
                } else {
                    Ok((st.0, st.1, n, st.3))
                },
            }
        } else if key == "BUILD"@ {
            Ok((st.0, st.1, st.2, value))
        } else {
            Ok(st)
        }
    }
}

/// The fields after reading the given lines in order; the first bad
/// number ends the reading.
pub open spec fn header_fields(lines: Seq<Seq<char>>) -> Result<VersionFields, Seq<char>>
    decreases lines.len(),
{
    if lines.len() == 0 {
        Ok((0, 0, 0, Seq::empty()))
    } else {
        match header_fields(lines.drop_last()) {
            Err(e) => Err(e),
            Ok(st) => apply_define(st, split_by(lines.last(), ' ')),
        }
    }
}

/// `major.minor.patch`, with `.build` after it where a build is given.
pub open spec fn version_text(st: VersionFields) -> Seq<char> {
    let base = int_text(st.0) + "."@ + int_text(st.1) + "."@ + int_text(st.2);
    if st.3.len() == 0 {
        base
    } else {
        base + "."@ + st.3
    }
}

/// The lines of a text as a line reader gives them: split at newlines,
/// and a line that ends in `\r\n` without its carriage return.
pub open spec fn header_lines(pieces: Seq<Seq<char>>) -> Seq<Seq<char>> {
    Seq::new(
        pieces.len(),
        |i: int|
            if i + 1 < pieces.len() {
                without_cr(pieces[i])
            } else {
                pieces[i]
            },
    )
}

/// The version a version header spells.
pub open spec fn header_version(content: Seq<char>) -> Result<Seq<char>, Seq<char>> {
    match header_fields(header_lines(split_by(content, '\n'))) {
        Ok(st) => Ok(version_text(st)),
        Err(e) => Err(e),
    }
}

/// Once a bad number is read, reading more lines keeps that error.
proof fn lemma_header_error_stays(lines: Seq<Seq<char>>, j: int)
    requires
        0 <= j <= lines.len(),
        header_fields(lines.subrange(0, j)) is Err,
    ensures
        header_fields(lines) == header_fields(lines.subrange(0, j)),
    decreases lines.len() - j,
{
    if j < lines.len() {
        assert(lines.subrange(0, j + 1).drop_last() =~= lines.subrange(0, j));
        lemma_header_error_stays(lines, j + 1);
    } else {
        assert(lines.subrange(0, j) =~= lines);
    }
}

/// Reads the version from the text of a version header.
pub fn parse_version_header(content: &String) -> (r: Result<String, ProjectError>)
    ensures
        match header_version(content@) {
            Ok(v) => r matches Ok(s) && s@ == v,
            Err(e) => r matches Err(ProjectError::VersionPart(p)) && p@ == e,
        },
{
    let lines = split_on(content, '\n');
    let ghost ls = header_lines(strings_view(lines@));
    let define = "#define".to_owned();
    let k_major = "MAJOR".to_owned();
    let k_minor = "MINOR".to_owned();
    let k_patchlvl = "PATCHLVL".to_owned();
    let k_patch = "PATCH".to_owned();
    let k_build = "BUILD".to_owned();
    let mut major: i32 = 0;
    let mut minor: i32 = 0;
    let mut patch: i32 = 0;
    let mut build = String::new();
    let mut i: usize = 0;
    assert(ls.subrange(0, 0).len() == 0);
    while i < lines.len()
        invariant
            i <= lines.len(),
            ls == header_lines(strings_view(lines@)),
            strings_view(lines@) == split_by(content@, '\n'),
            define@ == "#define"@,
            k_major@ == "MAJOR"@,
            k_minor@ == "MINOR"@,
            k_patchlvl@ == "PATCHLVL"@,
            k_patch@ == "PATCH"@,
            k_build@ == "BUILD"@,
            header_fields(ls.subrange(0, i as int)) == Ok::<VersionFields, Seq<char>>(
                (major as int, minor as int, patch as int, build@),
            ),
        decreases lines.len() - i,
    {
        let ghost st: VersionFields = (major as int, minor as int, patch as int, build@);
        proof {
            assert(ls.subrange(0, i + 1).drop_last() =~= ls.subrange(0, i as int));
        }
        let line = if i + 1 < lines.len() {
            strip_cr(&lines[i])
        } else {
            lines[i].clone()
        };
        assert(line@ == ls[i as int]);
        assert(ls.subrange(0, i + 1).last() == line@);
        let words = split_on(&line, ' ');
        let ghost ws = strings_view(words@);
        if words.len() >= 3 && words[0] == define {
            assert(ws[0] == words@[0]@ && ws[1] == words@[1]@ && ws[2] == words@[2]@);
            let key = &words[1];
            let value = &words[2];
            if *key == k_major || *key == k_minor || *key == k_patchlvl || *key == k_patch {
                match parse_i32(value) {
                    None => {
                        proof {
                            assert(version_part(value@) is None);
                            assert(header_fields(ls.subrange(0, i + 1)) == Err::<VersionFields, Seq<char>>(value@));
                            lemma_header_error_stays(ls, i + 1);
                        }
                        return Err(ProjectError::VersionPart(value.clone()));
                    },
                    Some(n) => {
                        if *key == k_major {
                            major = n;
                        } else if *key == k_minor {
                            minor = n;
                        } else {
                            patch = n;
                        }
                    },
                }
            } else if *key == k_build {
                build = value.clone();
            }
        }
        i = i + 1;
    }
    assert(ls.subrange(0, i as int) =~= ls);
    let mut v = i32_text(major);
    v.append(".");
    v.append(i32_text(minor).as_str());
    v.append(".");
    v.append(i32_text(patch).as_str());
    if !build.as_str().is_empty() {
        v.append(".");
        v.append(build.as_str());
    }
    Ok(v)
}

/// The variables a project's templates are rendered with, by name.
pub open spec fn variables(p: Project, env: Seq<char>, version: Seq<char>) -> Seq<(Seq<char>, Seq<char>)> {
    seq![
        ("author"@, p.author@),
        ("env"@, env),
        ("mainprefix"@, p.mainprefix@),
        ("name"@, p.name@),
        ("prefix"@, p.prefix@),
        ("version"@, version),
    ]
}

/// The version a project states, else the one its version header spells.
pub open spec fn project_version(stated: Seq<char>, header: Option<Seq<char>>) -> Option<
    Result<Seq<char>, Seq<char>>,
> {
    if stated.len() != 0 {
        Some(Ok(trimmed_of(stated)))
    } else {
        match header {
            Some(h) => Some(header_version(h)),
            None => None,
        }
    }
}

/// The name of the build environment: the one set, else `ci` on a
/// continuous-integration machine and `dev` elsewhere.
pub fn environment(set: Option<String>, ci: bool) -> (r: String)
    ensures
        match set {
            Some(e) => r@ == e@,
            None => r@ == (if ci { "ci"@ } else { "dev"@ }),
        },
{
    match set {
        Some(e) => e,
        None => if ci {
            "ci".to_owned()
        } else {
            "dev".to_owned()
        },
    }
}

impl Project {
    /// A new project description; `mod.cpp` is listed among its files where
    /// it exists.
    pub fn new(
        name: String,
        prefix: String,
        author: String,
        template: String,
        mod_cpp_exists: bool,
        header_folder: Option<String>,
    ) -> (r: Project)
        ensures
            r.name == name,
            r.prefix == prefix,
            r.author == author,
            r.template == template,
            r.version@.len() == 0,
            r.modname@.len() == 0,
            r.mainprefix@ == "z"@,
            r.header_exts@.len() == 0,
            match header_folder {
                Some(f) => strings_view(r.includes@) == seq![f@],
                None => r.includes@.len() == 0,
            },
            r.exclude@.len() == 0,
            mod_cpp_exists ==> strings_view(r.files@) == seq!["mod.cpp"@],
            !mod_cpp_exists ==> r.files@.len() == 0,
            r.reuse_private_key is None,
            r.key_name@.len() == 0,
            r.sig_name@.len() == 0,
            r.sig_version == 3,
            r.check@.len() == 0,
            r.prebuild@.len() == 0,
            r.postbuild@.len() == 0,
            r.releasebuild@.len() == 0,
    {
        let mut files: Vec<String> = Vec::new();
        if mod_cpp_exists {
            files.push("mod.cpp".to_owned());
            assert(strings_view(files@) =~= seq!["mod.cpp"@]);
        }
        Project {
            name,
            prefix,
            author,
            template,
            version: String::new(),
            modname: String::new(),
            mainprefix: default_mainprefix(),
            header_exts: Vec::new(),
            includes: default_includes(header_folder),
            exclude: Vec::new(),
            files,
            reuse_private_key: default_reuse_private_key(),
            key_name: String::new(),
            sig_name: String::new(),
            sig_version: default_sig_version(),
            check: Vec::new(),
            prebuild: Vec::new(),
            postbuild: Vec::new(),
            releasebuild: Vec::new(),
        }
    }

    /// The values templates are rendered with.
    pub fn get_variables(&self, env: &String, version: &String) -> (r: Vec<(String, String)>)
        ensures
            vars_view(r@) == variables(*self, env@, version@),
    {
        let mut vars: Vec<(String, String)> = Vec::new();
        vars.push(("author".to_owned(), self.author.clone()));
        vars.push(("env".to_owned(), env.clone()));
        vars.push(("mainprefix".to_owned(), self.mainprefix.clone()));
        vars.push(("name".to_owned(), self.name.clone()));
        vars.push(("prefix".to_owned(), self.prefix.clone()));
        vars.push(("version".to_owned(), version.clone()));
        assert(vars_view(vars@) =~= variables(*self, env@, version@));
        vars
    }

    /// Renders a template with the project's variables.
    pub fn render(&self, text: &String, env: &String, version: &String) -> (r: Result<String, TemplateError>)
        ensures
            match rendered_of(text@, variables(*self, env@, version@)) {
                Some(s) => r matches Ok(o) && o@ == s,
                None => r matches Err(e) && e.template@ == text@,
            },
    {
        let vars = self.get_variables(env, version);
        render(text, &vars)
    }

    /// The mod's name without `@`: the rendered `modname`, or the prefix
    /// where none is set.
    pub fn modname(&self, env: &String, version: &String) -> (r: Result<String, TemplateError>)
        ensures
            self.modname@.len() == 0 ==> (r matches Ok(o) && o@ == self.prefix@),
            self.modname@.len() != 0 ==> match rendered_of(self.modname@, variables(*self, env@, version@)) {
                Some(s) => r matches Ok(o) && o@ == s,
                None => r matches Err(e) && e.template@ == self.modname@,
            },
    {
        if self.modname.as_str().is_empty() {
            Ok(self.prefix.clone())
        } else {
            self.render(&self.modname, env, version)
        }
    }

    /// The version: the stated one without surrounding whitespace, else the
    /// one `header` (the text of the version header, where there is one)
    /// spells.
    pub fn version(&self, header: Option<&String>) -> (r: Result<String, ProjectError>)
        ensures
            match project_version(self.version@, match header { Some(h) => Some(h@), None => None }) {
                Some(Ok(v)) => r matches Ok(s) && s@ == v,
                Some(Err(e)) => r matches Err(ProjectError::VersionPart(p)) && p@ == e,
                None => r matches Err(ProjectError::NoVersion),
            },
    {
        if !self.version.as_str().is_empty() {
            Ok(trimmed(&self.version))
        } else {
            match header {
                Some(h) => parse_version_header(h),
                None => Err(ProjectError::NoVersion),
            }
        }
    }

    /// Stores the resolved version in the project, so that later readers
    /// find it stated; on an error the project is left as it was.
    pub fn cache_version(&mut self, header: Option<&String>) -> (r: Result<(), ProjectError>)
        ensures
            match project_version(old(self).version@, match header { Some(h) => Some(h@), None => None }) {
                Some(Ok(v)) => r is Ok && final(self).version@ == v,
                Some(Err(e)) => r matches Err(ProjectError::VersionPart(p)) && p@ == e,
                None => r matches Err(ProjectError::NoVersion),
            },
            r is Err ==> *final(self) == *old(self),
            final(self).name == old(self).name,
            final(self).prefix == old(self).prefix,
            final(self).modname == old(self).modname,
    {
        match self.version(header) {
            Ok(v) => {
                self.version = v;
                Ok(())
            },
            Err(e) => Err(e),
        }
    }

    /// The release folder `releases/{version}/@{modname}`.
    pub fn release_dir(&self, env: &String, header: Option<&String>) -> (r: Result<String, ProjectError>)
        ensures
            match project_version(self.version@, match header { Some(h) => Some(h@), None => None }) {
                Some(Ok(v)) => if self.modname@.len() == 0 {
                    r matches Ok(s) && s@ == "releases/"@ + v + "/@"@ + self.prefix@
                } else {
                    match rendered_of(self.modname@, variables(*self, env@, v)) {
                        Some(m) => r matches Ok(s) && s@ == "releases/"@ + v + "/@"@ + m,
                        None => r matches Err(ProjectError::Template(e)) && e.template@ == self.modname@,
                    }
                },
                Some(Err(e)) => r matches Err(ProjectError::VersionPart(p)) && p@ == e,
                None => r matches Err(ProjectError::NoVersion),
            },
    {
        let version = match self.version(header) {
            Ok(v) => v,
            Err(e) => {
                return Err(e);
            },
        };
        let modname = match self.modname(env, &version) {
            Ok(m) => m,
            Err(e) => {
                return Err(ProjectError::Template(e));
            },
        };
        let mut dir = "releases/".to_owned();
        dir.append(version.as_str());
        dir.append("/@");
        dir.append(modname.as_str());
        Ok(dir)
    }
}

} // verus!
