//! Manifests: what loads, what is refused, and what a guest ends up with.
use reaper::json::{read_json, read_yaml, Json};
use reaper::manifest::read::{
    check, default_manifest, exit_code, from_str, plural, report, Outcome,
};
use reaper::manifest::schema::{complaint, findings, SCHEMA};
use reaper::manifest::{location, validate, validate_under, Error, Exec, Manifest};
use reaper::verbs::project::{load_manifest, ManifestFile};

const CONTAINER_WITH_IMAGES: &str = "
schema: 1
project: container-project
guests: [some-guest]
exec: container
resources: { cores: 4, ram_gb: 8 }
build:
  image: docker.io/library/builder@sha256:aaaaaaaaaaaaaaaaaaaaaaaaaaaaaaaaaaaaaaaaaaaaaaaaaaaaaaaaaaaaaaaa
  cmd: make build
  cache: [registry, target]
run:
  cmd: make test
  images:
    - docker.io/library/one@sha256:1111111111111111111111111111111111111111111111111111111111111111
    - docker.io/library/two@sha256:2222222222222222222222222222222222222222222222222222222222222222
    - quay.io/some/three@sha256:3333333333333333333333333333333333333333333333333333333333333333
reset: { datasets: [state] }
profiles:
  nightly: { ttl: 12h, warm_cache: false, env: { MODE: nightly } }
";

const NO_IMAGES: &str = "
schema: 1
project: plain
guests: [some-guest]
exec: host
build: { cmd: make }
run: { cmd: make test }
";

const MINIMAL: &str = "
schema: 1
project: smallest
guests: [some-guest]
exec: host
run: { cmd: make test }
";

const INHERITED: &str = "
schema: 1
project: inherited
guests:
  - guest-a
  - name: guest-b
    exec: container
    build:
      image: docker.io/library/builder@sha256:aaaaaaaaaaaaaaaaaaaaaaaaaaaaaaaaaaaaaaaaaaaaaaaaaaaaaaaaaaaaaaaa
exec: host
build: { cmd: make build }
run: { cmd: make test }
";

const PER_VERB_EXEC: &str = "
schema: 1
project: per-verb
guests: [some-guest]
exec: container
build:
  image: docker.io/library/builder@sha256:aaaaaaaaaaaaaaaaaaaaaaaaaaaaaaaaaaaaaaaaaaaaaaaaaaaaaaaaaaaaaaaa
  cmd: make build
run: { exec: host, cmd: make test }
";

const RUN_INHERITS: &str = "
schema: 1
project: one-toolchain
guests: [some-guest]
exec: container
build:
  image: docker.io/library/builder@sha256:aaaaaaaaaaaaaaaaaaaaaaaaaaaaaaaaaaaaaaaaaaaaaaaaaaaaaaaaaaaaaaaa
  cmd: make build
run: { cmd: make test }
";

const SYNC_EXCLUDES: &str = "
schema: 1
project: excluding
guests: [some-guest]
exec: host
run: { cmd: make test }
sync: { exclude: ['/target/', '*.tmp', '.venv/'] }
";

const HOST_EXEC_WITH_IMAGE: &str = "
schema: 1
project: misfit
guests:
  - name: some-guest
    exec: host
build:
  image: docker.io/library/builder@sha256:aaaaaaaaaaaaaaaaaaaaaaaaaaaaaaaaaaaaaaaaaaaaaaaaaaaaaaaaaaaaaaaa
  cmd: make build
run: { cmd: make test }
";

const CONTAINER_RUN_WITHOUT_IMAGE: &str = "
schema: 1
project: imageless
guests: [some-guest]
exec: container
run: { cmd: make test }
";

const DUPLICATE_GUEST: &str = "
schema: 1
project: doubled
guests:
  - some-guest
  - name: some-guest
exec: host
run: { cmd: make test }
";

const CACHE_COLLISION: &str = "
schema: 1
project: colliding
guests: [some-guest]
exec: host
build: { cmd: make, cache: [my-cache, my.cache] }
run: { cmd: make test }
";

const HOSTLESS_IMAGE: &str = "
schema: 1
project: hostless
guests: [some-guest]
exec: container
build:
  image: library/builder@sha256:aaaaaaaaaaaaaaaaaaaaaaaaaaaaaaaaaaaaaaaaaaaaaaaaaaaaaaaaaaaaaaaa
  cmd: make build
run: { cmd: make test }
";

const UPPERCASE_IMAGE: &str = "
schema: 1
project: shouting
guests: [some-guest]
exec: container
build:
  image: docker.io/Library/Builder@sha256:aaaaaaaaaaaaaaaaaaaaaaaaaaaaaaaaaaaaaaaaaaaaaaaaaaaaaaaaaaaaaaaa
  cmd: make build
run: { cmd: make test }
";

fn load_ok(text: &str) -> Manifest {
    match from_str(text, "<inline>") {
        Ok(m) => m,
        Err(e) => panic!("should load: {}", e.message()),
    }
}

fn load_err(text: &str) -> Error {
    match from_str(text, "<inline>") {
        Ok(_) => panic!("should have been rejected"),
        Err(e) => e,
    }
}

fn problems(text: &str) -> Vec<String> {
    match load_err(text) {
        Error::Invalid { problems, .. } => problems,
        e => panic!("expected Invalid, got {}", e.message()),
    }
}

#[test]
fn a_container_guest_carries_its_toolchain_and_pre_pulled_images() {
    let m = load_ok(CONTAINER_WITH_IMAGES);
    assert_eq!(m.guests.len(), 1);

    let g = &m.guests[0];
    assert_eq!(g.mode, Some(Exec::Container));
    assert!(g.build.as_ref().unwrap().image.is_some());
    assert_eq!(g.run.images.len(), 3);
    assert_eq!(m.reset, vec!["state".to_string()]);
    assert_eq!(g.resources.cores, Some(4));
    assert_eq!(g.resources.ram_gb, Some(8));
}

#[test]
fn a_project_that_runs_no_containers_declares_no_images() {
    let m = load_ok(NO_IMAGES);
    assert_eq!(m.guests[0].mode, Some(Exec::Host));
    assert!(m.guests[0].run.images.is_empty());
    assert!(m.guests[0].build.as_ref().unwrap().image.is_none());
}

#[test]
fn the_smallest_legal_manifest_needs_no_build_and_no_reset() {
    let m = load_ok(MINIMAL);
    assert_eq!(m.guests.len(), 1);
    assert!(m.guests[0].build.is_none());
    assert!(m.reset.is_empty());
    assert_eq!(m.profiles.len(), 0);
}

#[test]
fn defaults_and_overrides_merge_across_scopes() {
    let m = load_ok(INHERITED);
    let a = m.guest("guest-a").unwrap();
    let b = m.guest("guest-b").unwrap();

    assert_eq!(a.mode, Some(Exec::Host));
    assert_eq!(b.mode, Some(Exec::Container));
    // Command from the top level, image from the guest: neither scope holds
    // both.
    assert_eq!(a.build.as_ref().unwrap().cmd, "make build");
    assert_eq!(b.build.as_ref().unwrap().cmd, "make build");
    assert!(b.build.as_ref().unwrap().image.is_some());
    assert!(m.guest("guest-c").is_none());
}

#[test]
fn profiles_are_read_but_not_interpreted() {
    let m = load_ok(CONTAINER_WITH_IMAGES);
    let nightly = m.profiles.get("nightly").expect("nightly profile");
    assert_eq!(nightly.ttl.as_deref(), Some("12h"));
    assert_eq!(nightly.warm_cache, Some(false));
    assert_eq!(nightly.env.get("MODE").unwrap(), "nightly");
}

#[test]
fn every_shipped_example_loads() {
    for text in [
        CONTAINER_WITH_IMAGES, NO_IMAGES, MINIMAL, INHERITED, PER_VERB_EXEC, RUN_INHERITS,
        SYNC_EXCLUDES,
    ] {
        let m = load_ok(text);
        assert!(!m.project.is_empty());
        assert!(!m.guests.is_empty());
    }
}

#[test]
fn every_example_verb_agrees_with_its_execution_mode() {
    fn coherent(what: &str, mode: Exec, image: Option<&String>) {
        match mode {
            Exec::Container => assert!(image.is_some(), "{what}: needs a toolchain image"),
            Exec::Host => assert!(image.is_none(), "{what}: has no image to run in"),
        }
    }
    for text in [
        CONTAINER_WITH_IMAGES, NO_IMAGES, MINIMAL, INHERITED, PER_VERB_EXEC, RUN_INHERITS,
    ] {
        for g in &load_ok(text).guests {
            if let Some(b) = &g.build {
                coherent(&format!("{} build", g.name), b.mode, b.image.as_ref());
            }
            coherent(&format!("{} run", g.name), g.run.mode, g.run.image.as_ref());
            assert!(!g.run.cmd.is_empty());
        }
    }
}

#[test]
fn invalid_fixtures_are_reported_as_invalid() {
    for text in [
        HOST_EXEC_WITH_IMAGE, CONTAINER_RUN_WITHOUT_IMAGE, DUPLICATE_GUEST, CACHE_COLLISION,
        HOSTLESS_IMAGE, UPPERCASE_IMAGE,
        "schema: 2\nproject: p\nguests: [g]\nexec: host\nrun: { cmd: x }\n",
        "schema: 1\nproject: p\nguests: []\nexec: host\nrun: { cmd: x }\n",
        "schema: 1\nproject: p\nguests: [g]\nrun: { cmd: x }\n",
        "schema: 1\nproject: p\nguests: [g]\nexec: host\n",
    ] {
        let e = load_err(text);
        assert!(matches!(e, Error::Invalid { .. }), "should be Invalid, got: {}", e.message());
    }
}

#[test]
fn the_exec_conditional_is_checked_after_merging() {
    // exec on the guest, build.image at the top level. Neither location is
    // wrong alone; only the merged form is.
    let problems = problems(HOST_EXEC_WITH_IMAGE);
    assert!(
        problems.iter().any(|p| p.contains("once defaults are merged in")),
        "the failure should name the merged form: {problems:?}"
    );
}

#[test]
fn every_problem_is_reported_not_just_the_first() {
    // Two independent faults: an unpinned image and an unknown key.
    let text = "
schema: 1
project: two-faults
guests: [g]
exec: container
build: { image: 'docker.io/library/x:latest', cmd: 'make' }
run: { cmd: 'make test' }
nonsense: true
";
    let problems = problems(text);
    assert!(problems.len() >= 2, "both faults should be reported, got: {problems:?}");
}

#[test]
fn unparseable_yaml_is_a_parse_error_not_an_invalid_manifest() {
    // "Your YAML is broken" and "your manifest is wrong" send a reader to
    // different places.
    let e = load_err("guests: [unclosed");
    assert!(matches!(e, Error::Parse { .. }), "got {}", e.message());
}

#[test]
fn a_missing_file_is_a_read_error() {
    let e = load_manifest("m.yaml", &ManifestFile::Unreadable("no such file".to_string()))
        .err()
        .expect("should not load");
    assert_eq!(e, "m.yaml: cannot read: no such file");
    match check(&Err("no such file".to_string()), "m.yaml") {
        Outcome::Error(m) => assert!(m.contains("no such file"), "{m}"),
        _ => panic!("wanted an error"),
    }
}

#[test]
fn the_embedded_schema_compiles() {
    let schema = read_json(SCHEMA).ok().expect("schema is JSON");
    assert_eq!(complaint(&schema), None);
    let value: serde_json::Value = serde_json::from_str(SCHEMA).expect("schema is JSON");
    jsonschema::validator_for(&value).expect("schema compiles");
}

#[test]
fn a_broken_schema_is_complained_of() {
    let schema = read_json(r#"{"type": 3}"#).ok().expect("JSON");
    assert!(complaint(&schema).is_some());
    assert!(findings(&schema, &Json::Null).is_err());
}

#[test]
fn a_profile_lives_for_one_amount_of_one_unit() {
    let with = |ttl: &str| {
        from_str(
            &format!(
                "schema: 1\nproject: p\nguests: [g]\nexec: host\nrun:\n  cmd: x\n\
                 profiles:\n  long: {{ ttl: {ttl} }}\n"
            ),
            "m.yaml",
        )
    };
    for good in ["12h", "7d", "090s"] {
        assert!(with(good).is_ok(), "{good}");
    }
    for bad in ["1h30m", "0h", "h", "1.5h", "12"] {
        assert!(matches!(with(bad), Err(Error::Invalid { .. })), "{bad}");
    }
}

#[test]
fn a_schema_that_leaves_the_document_does_not_compile() {
    let text = r#"{"allOf": [{"$ref": "http://a.example/x"}, {"$ref": "http://b.example/y"}]}"#;
    let schema = read_json(text).ok().expect("JSON");
    assert!(complaint(&schema).is_some());
    match validate_under(&schema, &Json::Null) {
        Err(Error::Internal(m)) => {
            assert!(m.starts_with("the embedded schema does not compile: "), "{m}")
        }
        _ => panic!("wanted an internal error"),
    }
}

#[test]
fn a_schema_says_where_and_what() {
    let schema = read_json(r#"{"properties": {"a": {"type": "string"}}}"#).ok().expect("JSON");
    let good = read_json(r#"{"a": "x"}"#).ok().expect("JSON");
    let bad = read_json(r#"{"a": 3}"#).ok().expect("JSON");
    assert!(findings(&schema, &good).unwrap().is_empty());
    let found = findings(&schema, &bad).unwrap();
    assert_eq!(found.len(), 1);
    assert!(found[0].0.contains("/a") || found[0].1.contains("/a"), "{found:?}");
}

#[test]
fn a_valid_document_has_no_problems() {
    let doc = read_yaml(MINIMAL).ok().expect("YAML");
    assert!(validate(&doc).ok().expect("the schema works").is_empty());
}

#[test]
fn a_verb_may_override_the_guests_execution_mode() {
    let m = load_ok(PER_VERB_EXEC);
    let g = &m.guests[0];

    assert_eq!(g.mode, Some(Exec::Container), "the guest's default");
    assert_eq!(g.build.as_ref().unwrap().mode, Exec::Container);
    assert_eq!(g.run.mode, Exec::Host, "the run overrode it");

    // And the override does not drag an image along with it.
    assert!(g.build.as_ref().unwrap().image.is_some());
    assert_eq!(g.run.image, None, "a host-execution run has nowhere to run an image");
}

#[test]
fn a_container_run_inherits_the_build_image() {
    let m = load_ok(RUN_INHERITS);
    let g = &m.guests[0];
    let build_image = g.build.as_ref().unwrap().image.clone();

    assert!(build_image.is_some());
    assert_eq!(g.run.image, build_image);
}

#[test]
fn a_run_that_names_an_image_keeps_it() {
    let text = "
schema: 1
project: two-images
guests: [g]
exec: container
build:
  image: docker.io/library/builder@sha256:aaaaaaaaaaaaaaaaaaaaaaaaaaaaaaaaaaaaaaaaaaaaaaaaaaaaaaaaaaaaaaaa
  cmd: make
run:
  image: docker.io/library/driver@sha256:bbbbbbbbbbbbbbbbbbbbbbbbbbbbbbbbbbbbbbbbbbbbbbbbbbbbbbbbbbbbbbbb
  cmd: make check
";
    let m = load_ok(text);
    assert!(m.guests[0].run.image.as_deref().unwrap().contains("driver"));
}

#[test]
fn sync_exclusions_are_read_verbatim() {
    let m = load_ok(SYNC_EXCLUDES);
    assert_eq!(m.sync_exclude, vec!["/target/", "*.tmp", ".venv/"]);

    // A manifest with no sync block excludes nothing of its own.
    assert!(load_ok(MINIMAL).sync_exclude.is_empty());
}

#[test]
fn a_container_verb_with_no_image_anywhere_is_refused() {
    let problems = problems(CONTAINER_RUN_WITHOUT_IMAGE);
    assert!(
        problems.iter().any(|p| p.contains("/run") && p.contains("image")),
        "the failure should name the run's missing image: {problems:?}"
    );
}

#[test]
fn the_same_guest_in_two_spellings_is_refused() {
    let problems = problems(DUPLICATE_GUEST);
    assert!(problems.iter().any(|p| p.contains("more than once")), "{problems:?}");
}

#[test]
fn cache_names_that_mangle_to_one_variable_are_refused() {
    let problems = problems(CACHE_COLLISION);
    assert!(
        problems.iter().any(|p| p.contains("REAPER_CACHE_MY_CACHE")),
        "the refusal must name the variable both would become: {problems:?}"
    );
}

#[test]
fn an_image_without_a_real_registry_host_is_refused() {
    // A hub namespace is not a host, and uppercase paths fail at pull time.
    load_err(HOSTLESS_IMAGE);
    load_err(UPPERCASE_IMAGE);
    // The forms real sites use still pass.
    load_ok(PER_VERB_EXEC);
}

#[test]
fn a_manifest_that_states_exec_only_per_verb_is_complete() {
    // Both verbs carry their mode; requiring an unread guest-level default on
    // top refused coherent manifests.
    let m = load_ok(
        r#"
schema: 1
project: verbwise
guests: [some-guest]
build: {exec: host, cmd: make deps}
run: {exec: host, cmd: make check}
"#,
    );
    let g = &m.guests[0];
    assert_eq!(g.mode, None, "no default was stated, and none is invented");
    assert_eq!(g.build.as_ref().unwrap().mode, Exec::Host);
    assert_eq!(g.run.mode, Exec::Host);
}

#[test]
fn a_manifest_may_be_written_in_toml() {
    let text = r#"
schema = 1
project = "tomlish"
guests = ["some-guest"]
exec = "host"

[run]
cmd = "make test"
env = { A = "1" }
"#;
    let m = match from_str(text, ".reaper.toml") {
        Ok(m) => m,
        Err(e) => panic!("should load: {}", e.message()),
    };
    assert_eq!(m.project, "tomlish");
    assert_eq!(m.guests[0].run.env.get("A").unwrap(), "1");
    let e = from_str("schema = ", ".reaper.toml").err().expect("broken");
    assert!(e.message().contains("cannot parse as TOML"), "{}", e.message());
}

#[test]
fn a_place_in_a_document_is_named() {
    assert_eq!(location(""), "(document root)");
    assert_eq!(location("/run/cmd"), "/run/cmd");
    assert_eq!(plural(1), "");
    assert_eq!(plural(2), "s");
}

#[test]
fn checking_several_manifests_ends_with_the_worst() {
    let good = check(&Ok(MINIMAL.to_string()), "good.yaml");
    let bad = check(&Ok(DUPLICATE_GUEST.to_string()), "bad.yaml");
    let broken = check(&Ok("guests: [unclosed".to_string()), "broken.yaml");
    assert!(report("good.yaml", &good)[0].contains("(1 guest)"), "{:?}", report("good.yaml", &good));
    assert!(report("bad.yaml", &bad)[0].starts_with("FAIL"));
    assert!(report("broken.yaml", &broken)[0].starts_with("ERROR"));
    assert_eq!(exit_code(&vec![]), 0);
    assert_eq!(exit_code(&vec![check(&Ok(MINIMAL.to_string()), "m")]), 0);
    assert_eq!(exit_code(&vec![good, bad]), 1);
    assert_eq!(
        exit_code(&vec![check(&Ok(DUPLICATE_GUEST.to_string()), "b"), broken]),
        2
    );
}

#[test]
fn the_manifest_here_is_the_one_that_is_there() {
    assert_eq!(default_manifest(true, true), ".reaper.toml");
    assert_eq!(default_manifest(false, true), ".reaper.yaml");
    assert_eq!(default_manifest(false, false), ".reaper.toml");
}

#[test]
fn a_missing_manifest_says_what_to_do_about_it() {
    let e = load_manifest(".reaper.toml", &ManifestFile::Absent).err().expect("nothing there");
    assert!(e.contains("docs/tenants.md"), "{e}");
}

#[test]
fn an_image_is_pinned_by_its_digest_alone() {
    let digest = "@sha256:aaaaaaaaaaaaaaaaaaaaaaaaaaaaaaaaaaaaaaaaaaaaaaaaaaaaaaaaaaaaaaaa";
    let with = |image: &str| {
        RUN_INHERITS.replace(&format!("docker.io/library/builder{digest}"), image)
    };
    // A tag is refused, beside a digest too.
    load_err(&with("docker.io/library/builder:latest"));
    load_err(&with(&format!("docker.io/library/builder:latest{digest}")));
    load_ok(&with(&format!("localhost:5000/builder{digest}")));
}
