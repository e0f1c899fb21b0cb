//! The descriptors of the supported build ecosystems.
use vstd::prelude::*;

use crate::project::{
    destinations, exclusion_of, PathMapping, PathPair, Project, ProjectError, ProjectType,
};

verus! {

/// The skeleton mapping of a Maven project with Surefire reports.
pub open spec fn maven_skeleton() -> Seq<PathPair> {
    seq![("src/main/"@, "src/main/"@), ("src/test/"@, "src/test/"@), ("pom.xml"@, "pom.xml"@)]
}

/// The submission mapping of a Maven project: the test suite is not taken
/// from students.
pub open spec fn maven_submission() -> Seq<PathPair> {
    seq![("pom.xml"@, "pom.xml"@), ("src/main/"@, "src/main/"@)]
}

/// The descriptor of a Maven project whose tests report through Surefire.
pub fn maven_project() -> (r: Result<Project, ProjectError>)
    ensures
        r matches Ok(p) && p.wf() && p.type_view() == ProjectType::MavenSurefire
            && p.skeleton_view() == maven_skeleton() && p.submission_view() == maven_submission()
            && p.exclusion_view() == seq!["src/test/"@],
{
    let mut skel_mapping = PathMapping::new();
    skel_mapping.insert("src/main/", "src/main/");
    skel_mapping.insert("src/test/", "src/test/");
    skel_mapping.insert("pom.xml", "pom.xml");
    let mut submission_zipfile_mapping = PathMapping::new();
    submission_zipfile_mapping.insert("pom.xml", "pom.xml");
    submission_zipfile_mapping.insert("src/main/", "src/main/");
    let mut ignore: Vec<String> = Vec::new();
    ignore.push(".DS_Store".to_owned());
    ignore.push("doc".to_owned());
    ignore.push(".settings".to_owned());
    ignore.push(".project".to_owned());
    ignore.push(".classpath".to_owned());
    ignore.push(".git".to_owned());
    ignore.push(".gitignore".to_owned());
    proof {
        reveal_strlit("src/main/");
        reveal_strlit("src/test/");
        reveal_strlit("pom.xml");
        let e = Seq::<PathPair>::empty();
        let main = ("src/main/"@, "src/main/"@);
        let test = ("src/test/"@, "src/test/"@);
        let pom = ("pom.xml"@, "pom.xml"@);
        assert(main.0 != test.0 && main.0 != pom.0 && test.0 != pom.0) by {
            assert(main.0[4] != test.0[4]);
            assert(main.0.len() != pom.0.len());
            assert(test.0.len() != pom.0.len());
        }
        assert(!crate::project::sources(e).contains(main.0));
        assert(e.push(main) =~= seq![main]);
        assert(!crate::project::sources(seq![main]).contains(test.0)) by {
            assert(crate::project::sources(seq![main]) =~= seq![main.0]);
        }
        assert(seq![main].push(test) =~= seq![main, test]);
        assert(!crate::project::sources(seq![main, test]).contains(pom.0)) by {
            assert(crate::project::sources(seq![main, test]) =~= seq![main.0, test.0]);
        }
        assert(seq![main, test].push(pom) =~= maven_skeleton());
        assert(e.push(pom) =~= seq![pom]);
        assert(!crate::project::sources(seq![pom]).contains(main.0)) by {
            assert(crate::project::sources(seq![pom]) =~= seq![pom.0]);
        }
        assert(seq![pom].push(main) =~= maven_submission());
    }
    let r = Project::new(
        ProjectType::MavenSurefire,
        skel_mapping,
        submission_zipfile_mapping,
        ignore,
    );
    proof {
        let main: Seq<char> = "src/main/"@;
        let test: Seq<char> = "src/test/"@;
        let pom: Seq<char> = "pom.xml"@;
        assert(main != test && main != pom && test != pom) by {
            assert(main[4] != test[4]);
            assert(main.len() != pom.len());
            assert(test.len() != pom.len());
        }
        let sd = destinations(maven_skeleton());
        let ud = destinations(maven_submission());
        assert(sd =~= seq![main, test, pom]);
        assert(ud =~= seq![pom, main]);
        assert(sd.no_duplicates());
        let keep = |d: Seq<char>| !ud.contains(d);
        assert(ud.contains(main)) by {
            assert(ud[1] == main);
        }
        assert(ud.contains(pom)) by {
            assert(ud[0] == pom);
        }
        assert(!ud.contains(test)) by {
            assert(ud[0] != test && ud[1] != test);
        }
        Seq::<Seq<char>>::empty().lemma_filter_push(main, keep);
        assert(seq![main] =~= Seq::<Seq<char>>::empty().push(main));
        seq![main].lemma_filter_push(test, keep);
        assert(seq![main, test] =~= seq![main].push(test));
        seq![main, test].lemma_filter_push(pom, keep);
        assert(seq![main, test, pom] =~= seq![main, test].push(pom));
        assert(Seq::<Seq<char>>::empty().filter(keep) =~= Seq::<Seq<char>>::empty());
        assert(exclusion_of(maven_skeleton(), maven_submission()) =~= seq![test]);
    }
    r
}

/// The descriptor of a Go project: none exists yet.
pub fn go_project() -> (r: Result<Project, ProjectError>)
    ensures
        r matches Err(e) && e is Unsupported,
{
    Err(ProjectError::Unsupported)
}

/// The descriptor used where no ecosystem was chosen: Maven's.
pub fn no_project() -> (r: Result<Project, ProjectError>)
    ensures
        r matches Ok(p) && p.wf() && p.type_view() == ProjectType::MavenSurefire
            && p.exclusion_view() == seq!["src/test/"@],
{
    maven_project()
}

/// The descriptor of an ecosystem.
pub fn project_type_to_project(project_type: &ProjectType) -> (r: Result<Project, ProjectError>)
    ensures
        *project_type == ProjectType::Go ==> (r matches Err(e) && e is Unsupported),
        *project_type != ProjectType::Go ==> (r matches Ok(p) && p.wf() && p.type_view()
            == ProjectType::MavenSurefire && p.skeleton_view() == maven_skeleton()
            && p.submission_view() == maven_submission()),
{
    match project_type {
        ProjectType::Unspecified => maven_project(),
        ProjectType::MavenSurefire => maven_project(),
        ProjectType::Go => go_project(),
    }
}

} // verus!
