//! The optional system tools (`nmcli`, `wpa_cli`) and how each package
//! manager installs them.
use vstd::prelude::*;
use crate::text::{append_str, string_of, strings};

verus! {

/// An optional system binary and the package that provides it under each
/// package manager.
#[derive(Debug, Clone, Copy)]
pub struct Dep {
    /// Binary name to check in PATH
    pub binary: &'static str,
    /// Human-readable description
    pub description: &'static str,
    /// Package name per package manager
    pub apt: &'static str,
    pub dnf: &'static str,
    pub pacman: &'static str,
    pub zypper: &'static str,
    pub apk: &'static str,
}

/// The mathematical value of a [`Dep`].
pub struct DepView {
    pub binary: Seq<char>,
    pub description: Seq<char>,
    pub apt: Seq<char>,
    pub dnf: Seq<char>,
    pub pacman: Seq<char>,
    pub zypper: Seq<char>,
    pub apk: Seq<char>,
}

impl View for Dep {
    type V = DepView;

    open spec fn view(&self) -> DepView {
        DepView {
            binary: self.binary@,
            description: self.description@,
            apt: self.apt@,
            dnf: self.dnf@,
            pacman: self.pacman@,
            zypper: self.zypper@,
            apk: self.apk@,
        }
    }
}

/// The views of a sequence of dependencies.
pub open spec fn dep_views(s: Seq<Dep>) -> Seq<DepView> {
    s.map_values(|d: Dep| d@)
}

/// The optional dependencies, in the order they are checked.
pub open spec fn deps_spec() -> Seq<DepView> {
    seq![
        DepView {
            binary: "nmcli"@,
            description: "NetworkManager CLI (connectivity status detection)"@,
            apt: "network-manager"@,
            dnf: "NetworkManager"@,
            pacman: "networkmanager"@,
            zypper: "NetworkManager"@,
            apk: "networkmanager"@,
        },
        DepView {
            binary: "wpa_cli"@,
            description: "WPA supplicant CLI (Wi-Fi connection context)"@,
            apt: "wpasupplicant"@,
            dnf: "wpa_supplicant"@,
            pacman: "wpa_supplicant"@,
            zypper: "wpa_supplicant"@,
            apk: "wpa_supplicant"@,
        },
    ]
}

/// The optional dependencies: `nmcli` for the connectivity status and
/// `wpa_cli` for the Wi-Fi context.
pub fn deps() -> (r: Vec<Dep>)
    ensures
        dep_views(r@) == deps_spec(),
{
    let mut r: Vec<Dep> = Vec::new();
    r.push(
        Dep {
            binary: "nmcli",
            description: "NetworkManager CLI (connectivity status detection)",
            apt: "network-manager",
            dnf: "NetworkManager",
            pacman: "networkmanager",
            zypper: "NetworkManager",
            apk: "networkmanager",
        },
    );
    r.push(
        Dep {
            binary: "wpa_cli",
            description: "WPA supplicant CLI (Wi-Fi connection context)",
            apt: "wpasupplicant",
            dnf: "wpa_supplicant",
            pacman: "wpa_supplicant",
            zypper: "wpa_supplicant",
            apk: "wpa_supplicant",
        },
    );
    assert(dep_views(r@) =~= deps_spec());
    r
}

/// A system package manager.
#[derive(Debug, Clone, Copy, PartialEq, Eq, Structural)]
pub enum PackageManager {
    Apt,
    Dnf,
    Yum,
    Pacman,
    Zypper,
    Apk,
}

/// The package managers in the order they are looked for.
pub open spec fn probe_order() -> Seq<PackageManager> {
    seq![
        PackageManager::Apt,
        PackageManager::Dnf,
        PackageManager::Yum,
        PackageManager::Pacman,
        PackageManager::Zypper,
        PackageManager::Apk,
    ]
}

/// Where `pm` stands in the probe order.
pub open spec fn probe_index(pm: PackageManager) -> nat {
    match pm {
        PackageManager::Apt => 0,
        PackageManager::Dnf => 1,
        PackageManager::Yum => 2,
        PackageManager::Pacman => 3,
        PackageManager::Zypper => 4,
        PackageManager::Apk => 5,
    }
}

/// One step of looking for a package manager.
#[derive(Debug, Clone, Copy, PartialEq, Eq, Structural)]
pub enum DetectStep {
    /// Look for the binary of this manager on the PATH, then hand the
    /// answer to [`PackageManager::detect`].
    Probe(PackageManager),
    /// This manager's binary was found.
    Found(PackageManager),
    /// No manager's binary was found.
    NoneFound,
}

/// What [`PackageManager::detect`] does after a probe of `probed`.
pub open spec fn detect_step_spec(probed: PackageManager, found: bool) -> DetectStep {
    if found {
        DetectStep::Found(probed)
    } else if probe_index(probed) + 1 < 6 {
        DetectStep::Probe(probe_order()[probe_index(probed) + 1 as int])
    } else {
        DetectStep::NoneFound
    }
}

/// Following the steps from `step`, with `in_path` answering each probe,
/// for at most `fuel` probes: the step reached and the managers probed, in
/// order.
pub open spec fn run_probes(
    in_path: spec_fn(PackageManager) -> bool,
    step: DetectStep,
    fuel: nat,
) -> (DetectStep, Seq<PackageManager>)
    decreases fuel,
{
    match step {
        DetectStep::Probe(pm) => if fuel == 0 {
            (step, Seq::empty())
        } else {
            let (end, probed) = run_probes(
                in_path,
                detect_step_spec(pm, in_path(pm)),
                (fuel - 1) as nat,
            );
            (end, seq![pm] + probed)
        },
        _ => (step, Seq::empty()),
    }
}

/// The binary by which a package manager is recognized and invoked.
pub open spec fn pm_name(pm: PackageManager) -> Seq<char> {
    match pm {
        PackageManager::Apt => "apt-get"@,
        PackageManager::Dnf => "dnf"@,
        PackageManager::Yum => "yum"@,
        PackageManager::Pacman => "pacman"@,
        PackageManager::Zypper => "zypper"@,
        PackageManager::Apk => "apk"@,
    }
}

/// The command words that come before the package names.
pub open spec fn command_prefix(pm: PackageManager) -> Seq<Seq<char>> {
    match pm {
        PackageManager::Apt => seq!["sudo"@, "apt-get"@, "install"@, "-y"@],
        PackageManager::Dnf => seq!["sudo"@, "dnf"@, "install"@, "-y"@],
        PackageManager::Yum => seq!["sudo"@, "yum"@, "install"@, "-y"@],
        PackageManager::Pacman => seq!["sudo"@, "pacman"@, "-S"@, "--noconfirm"@],
        PackageManager::Zypper => seq!["sudo"@, "zypper"@, "install"@, "-y"@],
        PackageManager::Apk => seq!["sudo"@, "apk"@, "add"@],
    }
}

/// The package that provides `dep` under `pm` (yum uses dnf's names).
pub open spec fn package_for_spec(pm: PackageManager, dep: DepView) -> Seq<char> {
    match pm {
        PackageManager::Apt => dep.apt,
        PackageManager::Dnf => dep.dnf,
        PackageManager::Yum => dep.dnf,
        PackageManager::Pacman => dep.pacman,
        PackageManager::Zypper => dep.zypper,
        PackageManager::Apk => dep.apk,
    }
}

impl PackageManager {
    /// All package managers, in the order they are looked for.
    pub fn all() -> (r: Vec<PackageManager>)
        ensures
            r@ == probe_order(),
    {
        let mut r: Vec<PackageManager> = Vec::new();
        r.push(PackageManager::Apt);
        r.push(PackageManager::Dnf);
        r.push(PackageManager::Yum);
        r.push(PackageManager::Pacman);
        r.push(PackageManager::Zypper);
        r.push(PackageManager::Apk);
        assert(r@ =~= probe_order());
        r
    }

    /// The first step of looking for a package manager: probe for the
    /// binary of the first one in the order of [`PackageManager::all`].
    pub fn first_probe() -> (r: DetectStep)
        ensures
            r == DetectStep::Probe(probe_order()[0]),
    {
        DetectStep::Probe(PackageManager::Apt)
    }

    /// The step after probing for the binary of `probed`: that manager,
    /// when its binary was `found` on the PATH; else a probe for the next
    /// manager in order; else, after the last one, none.
    pub fn detect(probed: PackageManager, found: bool) -> (r: DetectStep)
        ensures
            r == detect_step_spec(probed, found),
    {
        if found {
            return DetectStep::Found(probed);
        }
        match probed {
            PackageManager::Apt => DetectStep::Probe(PackageManager::Dnf),
            PackageManager::Dnf => DetectStep::Probe(PackageManager::Yum),
            PackageManager::Yum => DetectStep::Probe(PackageManager::Pacman),
            PackageManager::Pacman => DetectStep::Probe(PackageManager::Zypper),
            PackageManager::Zypper => DetectStep::Probe(PackageManager::Apk),
            PackageManager::Apk => DetectStep::NoneFound,
        }
    }

    /// The command that installs `packages`.
    pub fn install_cmd(&self, packages: &[&str]) -> (r: Vec<String>)
        ensures
            strings(r@) == command_prefix(*self) + packages@.map_values(|p: &str| p@),
    {
        let mut cmd: Vec<String> = Vec::new();
        cmd.push(String::from_str("sudo"));
        match self {
            PackageManager::Apt => {
                cmd.push(String::from_str("apt-get"));
                cmd.push(String::from_str("install"));
                cmd.push(String::from_str("-y"));
            },
            PackageManager::Dnf => {
                cmd.push(String::from_str("dnf"));
                cmd.push(String::from_str("install"));
                cmd.push(String::from_str("-y"));
            },
            PackageManager::Yum => {
                cmd.push(String::from_str("yum"));
                cmd.push(String::from_str("install"));
                cmd.push(String::from_str("-y"));
            },
            PackageManager::Pacman => {
                cmd.push(String::from_str("pacman"));
                cmd.push(String::from_str("-S"));
                cmd.push(String::from_str("--noconfirm"));
            },
            PackageManager::Zypper => {
                cmd.push(String::from_str("zypper"));
                cmd.push(String::from_str("install"));
                cmd.push(String::from_str("-y"));
            },
            PackageManager::Apk => {
                cmd.push(String::from_str("apk"));
                cmd.push(String::from_str("add"));
            },
        }
        assert(strings(cmd@) =~= command_prefix(*self));
        let ghost head = strings(cmd@);
        let mut i: usize = 0;
        while i < packages.len()
            invariant
                i <= packages.len(),
                head == command_prefix(*self),
                strings(cmd@) == head + packages@.map_values(|p: &str| p@).take(i as int),
            decreases packages.len() - i,
        {
            let ghost before = cmd@;
            let item = String::from_str(packages[i]);
            cmd.push(item);
            assert(strings(cmd@) =~= strings(before).push(item@));
            assert(packages@.map_values(|p: &str| p@).take(i + 1) =~= packages@.map_values(
                |p: &str| p@,
            ).take(i as int).push(packages@[i as int]@));
            i = i + 1;
        }
        assert(packages@.map_values(|p: &str| p@).take(packages.len() as int)
            == packages@.map_values(|p: &str| p@));
        cmd
    }

    /// The package that provides `dep` under this package manager.
    pub fn package_for(&self, dep: &Dep) -> (r: &'static str)
        ensures
            r@ == package_for_spec(*self, dep@),
    {
        match self {
            PackageManager::Apt => dep.apt,
            PackageManager::Dnf | PackageManager::Yum => dep.dnf,
            PackageManager::Pacman => dep.pacman,
            PackageManager::Zypper => dep.zypper,
            PackageManager::Apk => dep.apk,
        }
    }

    /// The binary by which this package manager is recognized and invoked.
    pub fn name(&self) -> (r: &'static str)
        ensures
            r@ == pm_name(*self),
    {
        match self {
            PackageManager::Apt => "apt-get",
            PackageManager::Dnf => "dnf",
            PackageManager::Yum => "yum",
            PackageManager::Pacman => "pacman",
            PackageManager::Zypper => "zypper",
            PackageManager::Apk => "apk",
        }
    }
}

/// The dependencies whose binary is missing: `in_path[i]` tells whether the
/// binary of `deps[i]` is on the PATH; a position past its end counts as
/// missing.
pub open spec fn missing_spec(deps: Seq<DepView>, in_path: Seq<bool>) -> Seq<DepView>
    decreases deps.len(),
{
    if deps.len() == 0 {
        Seq::empty()
    } else {
        let k = deps.len() - 1;
        let r = missing_spec(deps.drop_last(), in_path);
        if k < in_path.len() && in_path[k] {
            r
        } else {
            r.push(deps.last())
        }
    }
}

/// The dependencies whose binary is not on the PATH, in order.
pub fn missing_deps(deps: &Vec<Dep>, in_path: &Vec<bool>) -> (r: Vec<Dep>)
    ensures
        dep_views(r@) == missing_spec(dep_views(deps@), in_path@),
{
    let ghost d = dep_views(deps@);
    let mut r: Vec<Dep> = Vec::new();
    let mut i: usize = 0;
    while i < deps.len()
        invariant
            i <= deps.len(),
            d == dep_views(deps@),
            dep_views(r@) == missing_spec(d.take(i as int), in_path@),
        decreases deps.len() - i,
    {
        assert(d.take(i + 1).drop_last() == d.take(i as int));
        assert(d.take(i + 1).last() == deps@[i as int]@);
        if !(i < in_path.len() && in_path[i]) {
            let ghost before = r@;
            r.push(deps[i]);
            assert(dep_views(r@) =~= dep_views(before).push(deps@[i as int]@));
        }
        i = i + 1;
    }
    assert(d.take(deps.len() as int) == d);
    r
}

/// The command that installs the packages providing `missing` under `pm`.
pub fn install_command(pm: PackageManager, missing: &Vec<Dep>) -> (r: Vec<String>)
    ensures
        strings(r@) == command_prefix(pm) + dep_views(missing@).map_values(
            |d: DepView| package_for_spec(pm, d),
        ),
{
    let mut packages: Vec<&str> = Vec::new();
    let mut i: usize = 0;
    while i < missing.len()
        invariant
            i <= missing.len(),
            packages@.map_values(|p: &str| p@) == dep_views(missing@).map_values(
                |d: DepView| package_for_spec(pm, d),
            ).take(i as int),
        decreases missing.len() - i,
    {
        let ghost before = packages@;
        let p = pm.package_for(&missing[i]);
        packages.push(p);
        assert(packages@.map_values(|p: &str| p@) =~= before.map_values(|p: &str| p@).push(p@));
        assert(dep_views(missing@).map_values(|d: DepView| package_for_spec(pm, d)).take(i + 1)
            =~= dep_views(missing@).map_values(|d: DepView| package_for_spec(pm, d)).take(
            i as int,
        ).push(package_for_spec(pm, missing@[i as int]@)));
        i = i + 1;
    }
    assert(dep_views(missing@).map_values(|d: DepView| package_for_spec(pm, d)).take(
        missing.len() as int,
    ) == dep_views(missing@).map_values(|d: DepView| package_for_spec(pm, d)));
    pm.install_cmd(packages.as_slice())
}

proof fn lemma_run_probes_from(in_path: spec_fn(PackageManager) -> bool, i: nat)
    requires
        i < 6,
    ensures
        ({
            let (end, probed) = run_probes(
                in_path,
                DetectStep::Probe(probe_order()[i as int]),
                (6 - i) as nat,
            );
            &&& 0 < probed.len() <= 6 - i
            &&& forall|k: int| 0 <= k < probed.len() ==> probed[k] == probe_order()[i + k]
            &&& forall|k: int| 0 <= k < probed.len() - 1 ==> !in_path(#[trigger] probed[k])
            &&& match end {
                DetectStep::Found(pm) => in_path(pm) && pm == probed.last(),
                DetectStep::NoneFound => probed.len() == 6 - i && !in_path(probed.last()),
                DetectStep::Probe(_) => false,
            }
        }),
    decreases 6 - i,
{
    let pm = probe_order()[i as int];
    let fuel = (6 - i) as nat;
    assert(probe_index(pm) == i);
    let next = detect_step_spec(pm, in_path(pm));
    let (e, rest) = run_probes(in_path, next, (fuel - 1) as nat);
    assert(run_probes(in_path, DetectStep::Probe(pm), fuel) == (e, seq![pm] + rest));
    let probed = seq![pm] + rest;
    if in_path(pm) {
        assert(next == DetectStep::Found(pm));
        assert(rest =~= Seq::<PackageManager>::empty());
        assert(probed.last() == pm);
    } else if i + 1 < 6 {
        assert(next == DetectStep::Probe(probe_order()[i + 1 as int]));
        lemma_run_probes_from(in_path, i + 1);
        assert forall|k: int| 0 <= k < probed.len() implies probed[k] == probe_order()[i + k] by {
            if k > 0 {
                assert(probed[k] == rest[k - 1]);
            }
        }
        assert forall|k: int| 0 <= k < probed.len() - 1 implies !in_path(#[trigger] probed[k]) by {
            if k > 0 {
                assert(probed[k] == rest[k - 1]);
            }
        }
        assert(probed.last() == rest.last());
    } else {
        assert(next == DetectStep::NoneFound);
        assert(rest =~= Seq::<PackageManager>::empty());
        assert(probed.last() == pm);
    }
}

/// Looking for a package manager step by step probes the managers in the
/// order of [`PackageManager::all`] and stops at the first whose binary is
/// on the PATH: it ends with `Found(pm)` exactly for the first such `pm`,
/// having probed just the managers up to it, or with `NoneFound` after
/// probing all six, none of which was found.
pub proof fn law_detection_stops_at_first_hit(in_path: spec_fn(PackageManager) -> bool)
    ensures
        ({
            let (end, probed) = run_probes(in_path, DetectStep::Probe(probe_order()[0]), 6);
            match end {
                DetectStep::Found(pm) => {
                    &&& in_path(pm)
                    &&& probed == probe_order().take(probe_index(pm) + 1 as int)
                    &&& forall|k: int| 0 <= k < probe_index(pm) ==> !in_path(probe_order()[k])
                },
                DetectStep::NoneFound => {
                    &&& probed == probe_order()
                    &&& forall|k: int| 0 <= k < 6 ==> !in_path(probe_order()[k])
                },
                DetectStep::Probe(_) => false,
            }
        }),
{
    lemma_run_probes_from(in_path, 0);
    let (end, probed) = run_probes(in_path, DetectStep::Probe(probe_order()[0]), 6);
    match end {
        DetectStep::Found(pm) => {
            let n = probed.len();
            assert(probe_order()[n - 1] == pm);
            assert(probe_index(probe_order()[n - 1]) == n - 1);
            assert(probed =~= probe_order().take(probe_index(pm) + 1 as int));
            assert forall|k: int| 0 <= k < probe_index(pm) implies !in_path(probe_order()[k]) by {
                assert(probed[k] == probe_order()[k]);
            }
        },
        DetectStep::NoneFound => {
            assert(probed =~= probe_order());
            assert forall|k: int| 0 <= k < 6 implies !in_path(probe_order()[k]) by {
                assert(probed[k] == probe_order()[k]);
            }
        },
        _ => {},
    }
}

/// One line of the report on installed dependencies.
pub open spec fn installed_line(d: DepView) -> Seq<char> {
    "  \u{2713}  "@ + d.binary + " ("@ + d.description + ")\n"@
}

/// One line per dependency, each saying that it is installed.
pub open spec fn installed_lines(deps: Seq<DepView>) -> Seq<char>
    decreases deps.len(),
{
    if deps.len() == 0 {
        Seq::empty()
    } else {
        installed_lines(deps.drop_last()) + installed_line(deps.last())
    }
}

/// One line per dependency, saying whether its binary is on the PATH
/// (`in_path` as for [`missing_spec`]).
pub open spec fn presence_lines(deps: Seq<DepView>, in_path: Seq<bool>) -> Seq<char>
    decreases deps.len(),
{
    if deps.len() == 0 {
        Seq::empty()
    } else {
        let k = deps.len() - 1;
        let d = deps.last();
        presence_lines(deps.drop_last(), in_path) + (if k < in_path.len() && in_path[k] {
            "  ok   "@
        } else {
            "  miss "@
        }) + d.binary + " \u{2014} "@ + d.description + "\n"@
    }
}

/// The report on the dependencies: when none is missing, that all are
/// installed, with one line each; else one line each saying whether it is
/// present, and an empty line.
pub open spec fn dependency_report_spec(deps: Seq<DepView>, in_path: Seq<bool>) -> Seq<char> {
    if missing_spec(deps, in_path).len() == 0 {
        "All dependencies are already installed:\n"@ + installed_lines(deps)
    } else {
        presence_lines(deps, in_path) + "\n"@
    }
}

proof fn lemma_missing_len(deps: Seq<DepView>, in_path: Seq<bool>, i: int)
    requires
        0 <= i < deps.len(),
        !(i < in_path.len() && in_path[i]),
    ensures
        missing_spec(deps, in_path).len() > 0,
    decreases deps.len(),
{
    if i < deps.len() - 1 {
        lemma_missing_len(deps.drop_last(), in_path, i);
    }
}

/// The report on which dependencies are installed.
pub fn dependency_report(deps: &Vec<Dep>, in_path: &Vec<bool>) -> (r: String)
    ensures
        r@ == dependency_report_spec(dep_views(deps@), in_path@),
{
    let ghost d = dep_views(deps@);
    let mut all_present = true;
    let mut i: usize = 0;
    while i < deps.len()
        invariant
            i <= deps.len(),
            d == dep_views(deps@),
            all_present ==> missing_spec(d.take(i as int), in_path@).len() == 0,
            !all_present ==> missing_spec(d, in_path@).len() > 0,
        decreases deps.len() - i,
    {
        assert(d.take(i + 1).drop_last() == d.take(i as int));
        if !(i < in_path.len() && in_path[i]) {
            proof {
                lemma_missing_len(d, in_path@, i as int);
            }
            all_present = false;
        }
        i = i + 1;
    }
    assert(d.take(deps.len() as int) == d);
    let mut out: Vec<char> = Vec::new();
    if all_present {
        append_str(&mut out, "All dependencies are already installed:\n");
        let ghost head = out@;
        let mut j: usize = 0;
        while j < deps.len()
            invariant
                j <= deps.len(),
                d == dep_views(deps@),
                out@ == head + installed_lines(d.take(j as int)),
            decreases deps.len() - j,
        {
            assert(d.take(j + 1).drop_last() == d.take(j as int));
            assert(d.take(j + 1).last() == deps@[j as int]@);
            append_str(&mut out, "  \u{2713}  ");
            append_str(&mut out, deps[j].binary);
            append_str(&mut out, " (");
            append_str(&mut out, deps[j].description);
            append_str(&mut out, ")\n");
            assert(out@ =~= head + installed_lines(d.take(j + 1)));
            j = j + 1;
        }
        assert(d.take(deps.len() as int) == d);
    } else {
        let mut j: usize = 0;
        while j < deps.len()
            invariant
                j <= deps.len(),
                d == dep_views(deps@),
                out@ == presence_lines(d.take(j as int), in_path@),
            decreases deps.len() - j,
        {
            assert(d.take(j + 1).drop_last() == d.take(j as int));
            assert(d.take(j + 1).last() == deps@[j as int]@);
            let ghost before = out@;
            if j < in_path.len() && in_path[j] {
                append_str(&mut out, "  ok   ");
            } else {
                append_str(&mut out, "  miss ");
            }
            append_str(&mut out, deps[j].binary);
            append_str(&mut out, " \u{2014} ");
            append_str(&mut out, deps[j].description);
            append_str(&mut out, "\n");
            assert(out@ =~= presence_lines(d.take(j + 1), in_path@));
            j = j + 1;
        }
        assert(d.take(deps.len() as int) == d);
        append_str(&mut out, "\n");
    }
    string_of(&out)
}

/// One line per missing dependency, naming its binary and what it is for.
pub open spec fn manual_lines(missing: Seq<DepView>) -> Seq<char>
    decreases missing.len(),
{
    if missing.len() == 0 {
        Seq::empty()
    } else {
        manual_lines(missing.drop_last()) + "  "@ + missing.last().binary + " ("@
            + missing.last().description + ")\n"@
    }
}

/// What is reported when no package manager is found: that none was,
/// and the dependencies to install by hand.
pub open spec fn no_manager_report_spec(missing: Seq<DepView>) -> Seq<char> {
    "Could not detect a supported package manager.\nPlease install the following manually:\n"@
        + manual_lines(missing)
}

/// The report given when no package manager is found.
pub fn no_manager_report(missing: &Vec<Dep>) -> (r: String)
    ensures
        r@ == no_manager_report_spec(dep_views(missing@)),
{
    let ghost d = dep_views(missing@);
    let mut out: Vec<char> = Vec::new();
    append_str(
        &mut out,
        "Could not detect a supported package manager.\nPlease install the following manually:\n",
    );
    let ghost head = out@;
    let mut j: usize = 0;
    while j < missing.len()
        invariant
            j <= missing.len(),
            d == dep_views(missing@),
            out@ == head + manual_lines(d.take(j as int)),
        decreases missing.len() - j,
    {
        assert(d.take(j + 1).drop_last() == d.take(j as int));
        assert(d.take(j + 1).last() == missing@[j as int]@);
        append_str(&mut out, "  ");
        append_str(&mut out, missing[j].binary);
        append_str(&mut out, " (");
        append_str(&mut out, missing[j].description);
        append_str(&mut out, ")\n");
        assert(out@ =~= head + manual_lines(d.take(j + 1)));
        j = j + 1;
    }
    assert(d.take(missing.len() as int) == d);
    string_of(&out)
}

/// The install command runs, under `sudo`, the binary of the package
/// manager it is for, the one that was probed on the PATH (`yum` for Yum,
/// not `dnf`), and no two package managers share a binary.
pub proof fn law_install_command_runs_detected_manager(pm: PackageManager, other: PackageManager)
    ensures
        command_prefix(pm).len() >= 2,
        command_prefix(pm)[0] == "sudo"@,
        command_prefix(pm)[1] == pm_name(pm),
        pm != other ==> pm_name(pm) != pm_name(other),
{
    reveal_strlit("apt-get");
    reveal_strlit("dnf");
    reveal_strlit("yum");
    reveal_strlit("pacman");
    reveal_strlit("zypper");
    reveal_strlit("apk");
    if pm != other {
        assert(pm_name(pm) != pm_name(other)) by {
            let a = pm_name(pm);
            let b = pm_name(other);
            if a == b {
                assert(a.len() == b.len());
                assert(a[0] == b[0]);
                assert(a[a.len() - 1] == b[b.len() - 1]);
            }
        }
    }
}

} // verus!
