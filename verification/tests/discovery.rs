use helix_extensions::lazy_plugins::discovery::{
    account_source, check_source_count, check_source_name, first_paragraph, line_number, order_sources, resolve_source,
    DiscoveryCache, SourceFile, MAX_REQUEST_BYTES, MAX_SOURCE_BYTES, MAX_SOURCE_COUNT,
};
use helix_extensions::lazy_plugins::local_dependencies::parse_local_dependencies;
use helix_extensions::lazy_plugins::reader::is_readable;
use helix_extensions::lazy_plugins::state::{LazyError, Registry};

struct Directory {
    files: Vec<(String, Vec<u8>)>,
}

impl Directory {
    fn new() -> Directory {
        Directory { files: Vec::new() }
    }

    fn write(&mut self, name: &str, bytes: &[u8]) -> String {
        let path = format!("/sources/{name}");
        self.files.retain(|file| file.0 != path);
        self.files.push((path.clone(), bytes.to_vec()));
        path
    }

    fn bytes(&self, path: &str) -> &[u8] {
        &self.files.iter().find(|file| file.0 == path).unwrap().1
    }

    fn sources(&self, paths: &[String]) -> Result<Vec<SourceFile>, LazyError> {
        check_source_count(paths.len())?;
        let mut total = 0;
        for path in paths {
            check_source_name(path, path.rsplit_once('.').map(|parts| parts.1))?;
            total = account_source(path, total, self.bytes(path).len() as u64)?;
        }
        Ok(order_sources(&paths.to_vec())
            .into_iter()
            .map(|path| {
                let text = String::from_utf8(self.bytes(&path).to_vec()).map_err(|error| error.to_string());
                SourceFile { path, text }
            })
            .collect())
    }
}

fn discover(cache: &mut DiscoveryCache, directory: &Directory, paths: &[String]) -> Result<Vec<(String, String)>, LazyError> {
    cache.discover_commands(&directory.sources(paths)?)
}

fn found<'a>(commands: &'a [(String, String)], name: &str) -> Option<&'a str> {
    commands.iter().find(|command| command.0 == name).map(|command| command.1.as_str())
}

#[test]
fn discovers_provided_documented_commands_without_evaluating_source() {
    let mut directory = Directory::new();
    let source = directory.write(
        "valid.scm",
        br#"
;;@lazy-command
;;@doc
;; Run the discovered command.
;;
;; Longer reference material is not used in command completion.
(define (discovered-command value) value)

(error "discovery must not evaluate source")
(provide discovered-command)
"#,
    );

    let commands = discover(&mut DiscoveryCache::new(), &directory, &[source]).unwrap();
    assert_eq!(found(&commands, "discovered-command"), Some("Run the discovered command."));
}

#[test]
fn discovered_registration_populates_completion_and_docs() {
    let mut directory = Directory::new();
    let source = directory.write(
        "registered.scm",
        br#"
;;@lazy-command
;;@doc
;; Registered from source.
(define registered-command (lambda () "ok"))
(provide registered-command)
"#,
    );

    let mut registry = Registry::new(1, Vec::new());
    let mut cache = DiscoveryCache::new();
    let sources = directory.sources(&[source.clone()]).unwrap();
    registry
        .register_discovered_lazy_plugin(&mut cache, "discovered".to_string(), vec![source], Vec::new(), &sources)
        .unwrap();

    assert!(registry.recognizes("registered-command"));
    assert_eq!(registry.documentation("registered-command").as_deref(), Some("Registered from source."));
}

#[test]
fn rejects_orphan_markers_and_unprovided_commands() {
    let mut directory = Directory::new();
    let orphan = directory.write("orphan.scm", b";;@lazy-command\n(define orphan 1)\n(provide orphan)\n");
    assert!(discover(&mut DiscoveryCache::new(), &directory, &[orphan]).unwrap_err().message.contains("orphan"));

    let missing_provide = directory.write(
        "missing-provide.scm",
        b";;@lazy-command\n;;@doc\n;; Hidden.\n(define (hidden-command) #true)\n",
    );
    assert!(discover(&mut DiscoveryCache::new(), &directory, &[missing_provide])
        .unwrap_err()
        .message
        .contains("not provided"));
}

#[test]
fn rejects_commands_discovered_from_multiple_sources() {
    let mut directory = Directory::new();
    let one = directory.write(
        "one.scm",
        b";;@lazy-command\n;;@doc\n;; One.\n(define (duplicate-command) 1)\n(provide duplicate-command)\n",
    );
    let two = directory.write(
        "two.scm",
        b";;@lazy-command\n;;@doc\n;; Two.\n(define (duplicate-command) 2)\n(provide duplicate-command)\n",
    );

    assert!(discover(&mut DiscoveryCache::new(), &directory, &[one, two])
        .unwrap_err()
        .message
        .contains("more than once"));
}

#[test]
fn discovers_shorthand_and_value_definitions_with_first_paragraph_docs() {
    let mut directory = Directory::new();
    let source = directory.write(
        "forms.scm",
        br#"
;;@lazy-command
;;@doc
;; Shorthand summary line one.
;; Summary line two.
;;
;; Ignored detail.
(define (shorthand-command) #true)

;;@lazy-command
;;@doc
;; Value-style summary.
(define value-command (lambda () #true))

(provide shorthand-command value-command)
"#,
    );

    let commands = discover(&mut DiscoveryCache::new(), &directory, &[source]).unwrap();
    assert_eq!(commands.len(), 2);
    assert_eq!(found(&commands, "shorthand-command"), Some("Shorthand summary line one. Summary line two."));
    assert_eq!(found(&commands, "value-command"), Some("Value-style summary."));
}

#[test]
fn reports_source_lines_for_orphans_and_parse_failures() {
    let mut directory = Directory::new();
    let orphan =
        directory.write("line.scm", b"\n\n;;@lazy-command\n(define command #true)\n(provide command)\n");
    assert!(discover(&mut DiscoveryCache::new(), &directory, &[orphan]).unwrap_err().message.contains("line.scm:3"));

    let malformed =
        directory.write("malformed.scm", b";;@lazy-command\n;;@doc\n;; Broken.\n(define (broken-command)\n");
    let error = discover(&mut DiscoveryCache::new(), &directory, &[malformed]).unwrap_err().message;
    assert!(error.contains("malformed.scm:"), "{error}");
}

#[test]
fn validates_paths_encoding_and_request_limits() {
    let mut directory = Directory::new();
    let mut cache = DiscoveryCache::new();

    let text = directory.write("not-scheme.txt", b"text");
    assert!(discover(&mut cache, &directory, &[text]).unwrap_err().message.contains(".scm"));

    let invalid_utf8 = directory.write("invalid.scm", &[0xff, 0xfe]);
    assert!(discover(&mut cache, &directory, &[invalid_utf8]).unwrap_err().message.contains("failed to read source"));

    let oversized = directory.write("oversized.scm", &vec![b' '; MAX_SOURCE_BYTES as usize + 1]);
    assert!(discover(&mut cache, &directory, &[oversized]).unwrap_err().message.contains("exceeds"));

    let too_many = vec!["missing.scm".to_string(); MAX_SOURCE_COUNT + 1];
    assert!(discover(&mut cache, &directory, &too_many).unwrap_err().message.contains("at most"));
}

#[test]
fn cache_is_generation_scoped() {
    let mut directory = Directory::new();
    let mut cache = DiscoveryCache::new();
    let source = directory.write(
        "cached.scm",
        b";;@lazy-command\n;;@doc\n;; Before reset.\n(define (cached-command) #true)\n(provide cached-command)\n",
    );
    let commands = discover(&mut cache, &directory, &[source.clone()]).unwrap();
    assert_eq!(found(&commands, "cached-command"), Some("Before reset."));

    directory.write(
        "cached.scm",
        b";;@lazy-command\n;;@doc\n;; After reset.\n(define (cached-command) #true)\n(provide cached-command)\n",
    );
    let commands = discover(&mut cache, &directory, &[source.clone()]).unwrap();
    assert_eq!(found(&commands, "cached-command"), Some("Before reset."));
    assert!(cache.holds(&source));

    cache.reset();
    assert!(!cache.holds(&source));
    let commands = discover(&mut cache, &directory, &[source]).unwrap();
    assert_eq!(found(&commands, "cached-command"), Some("After reset."));
}

#[test]
fn requests_have_limits() {
    assert_eq!(check_source_count(0).unwrap_err().message, "lazy command discovery requires at least one source");
    assert!(check_source_count(MAX_SOURCE_COUNT).is_ok());
    assert!(check_source_name("", Some("scm")).is_err());
    assert!(check_source_name("a\nb.scm", Some("scm")).is_err());
    assert!(check_source_name("a", None).is_err());
    assert!(account_source("a.scm", MAX_REQUEST_BYTES, 1).is_err());
    assert_eq!(account_source("a.scm", 5, 6).unwrap(), 11);
}

#[test]
fn sources_are_put_in_order_once() {
    let given = vec!["/b".to_string(), "/a-b".to_string(), "/a/b".to_string(), "/b".to_string()];
    assert_eq!(order_sources(&given), vec!["/a/b", "/a-b", "/b"]);
    assert!(order_sources(&vec![]).is_empty());
}

#[test]
fn summaries_end_at_the_first_empty_line() {
    assert_eq!(first_paragraph(" One \n two\n\n three"), "One two");
    assert_eq!(first_paragraph("\n One"), "");
    assert_eq!(line_number("a\nb\nc", 2), 2);
    assert_eq!(line_number("a\nb\nc", 0), 1);
}

#[test]
fn a_source_is_found_at_the_first_place_that_has_it() {
    let places = vec![("/config/a.scm".to_string(), false), ("/run/a.scm".to_string(), true), ("/x/a.scm".to_string(), true)];
    assert_eq!(resolve_source("a.scm", &places).unwrap(), "/run/a.scm");
    assert_eq!(
        resolve_source("a.scm", &vec![]).unwrap_err().message,
        "lazy discovery source was not found: \"a.scm\""
    );
}

#[test]
fn discovered_logical_plugins_keep_their_manifest() {
    let mut directory = Directory::new();
    let source = directory.write(
        "logical.scm",
        b";;@lazy-command\n;;@doc\n;; Logical.\n(define (logical-command) 1)\n(provide logical-command)\n",
    );
    let mut registry = Registry::new(1, Vec::new());
    let mut cache = DiscoveryCache::new();
    let sources = directory.sources(&[source.clone()]).unwrap();
    registry
        .register_discovered_logical_lazy_plugin(
            &mut cache,
            "catalog".to_string(),
            "catalog-ui".to_string(),
            vec![source],
            Vec::new(),
            &sources,
        )
        .unwrap();
    assert!(registry.recognizes("logical-command"));
    assert_eq!(registry.logical_plugin_registered_ids(), vec!["catalog"]);
    assert!(registry.logical_plugin_registered("catalog"));
}

#[test]
fn sources_that_the_parser_cannot_take_are_refused() {
    let ticks = format!("{}x", "'".repeat(65));
    let lists = format!("{}{}", "(".repeat(1001), ")".repeat(1001));
    let comments = format!("(a {} b)", "#; ".repeat(256));
    for source in [
        "(define x . 5)",
        "(a (if b . c))",
        "(quote . x)",
        "(|if| a . b)",
        "#;(begin . x)",
        "#((set! a . b))",
        "`(a ,(if b . c))",
        "(define (()) 1)",
        "(define ((() a) b) 1)",
        "(define #;x (#;y () z) 1)",
        "'(unquote x)",
        "'(quote",
        "'(quote x]",
        "'(quote (x)",
        "'(quote (x . y))",
        "`(quote ,(if))",
        ";;@doc\n;; d\n(a #'(define-syntax b c))",
        ticks.as_str(),
        lists.as_str(),
        comments.as_str(),
    ] {
        assert!(!is_readable(source), "{source}");
        let error = parse_local_dependencies(source, "local.scm").unwrap_err();
        assert!(error.message.ends_with("source holds a form that cannot be read"), "{source}");
    }
    let mut directory = Directory::new();
    let path = directory.write("dotted.scm", b"(provide a)\n(define x . 5)\n");
    let error = discover(&mut DiscoveryCache::new(), &directory, &[path]).unwrap_err();
    assert!(error.message.ends_with("source holds a form that cannot be read"));
}

#[test]
fn sources_that_the_parser_takes_are_read() {
    let ticks = format!("{}x", "'".repeat(64));
    let lists = format!("{}{}", "(".repeat(1000), ")".repeat(1000));
    let comments = format!("(a {} {} b)", "#; ".repeat(255), "c ".repeat(255));
    let waiting = format!("{} {} b", "#; ".repeat(400), "c ".repeat(400));
    for source in [
        "",
        ticks.as_str(),
        lists.as_str(),
        comments.as_str(),
        waiting.as_str(),
        "'(a (unquote b))",
        "`(a (unquote (f x)) (unquote-splicing c))",
        "'(a (quasiquote (b c)))",
        "(a (unquote . b))",
        "(lambda (x . rest) rest)",
        "(define (f . rest) rest)",
        "(define ((f a) b) c)",
        "'(a . b)",
        "'(if a . b)",
        "`(define x . ,y)",
        "(case-lambda [() 1] [(a) 2])",
        "'(quote x)",
        "`(quote ,x)",
        "`(quote ,(car x))",
        "'(a (b (quote ((x) y))))",
        "`(a (quote (b ,@(c))) (quote d))",
        "'((quote x) (quote y))",
        "(quote (a b))",
        "(quasiquote (a (unquote b)))",
        "(a #;b c) #;(d) e",
        "'#;a b",
        "#(a b) #u8(1 2)",
        "(if a b c)",
        "(let loop ((a 1)) a)",
        "#'x",
        "(a . (b c))",
    ] {
        assert!(is_readable(source), "{source}");
        assert!(parse_local_dependencies(source, "local.scm").is_ok(), "{source}");
    }
    for source in ["(", ")", "(a", "(a]", "\"a", "(. a)", "(a . b c)", "(a . )", "(if)", "'", "#;", "##"] {
        assert!(is_readable(source), "{source}");
        let error = parse_local_dependencies(source, "local.scm").unwrap_err();
        assert!(!error.message.ends_with("cannot be read"), "{source}");
    }
}

#[test]
fn a_refused_source_leaves_the_ones_before_it_cached() {
    let mut directory = Directory::new();
    let good = b"(provide a)\n;;@lazy-command\n;;@doc\n;; First.\n(define (a) 1)\n";
    let first = directory.write("a.scm", good);
    let second = directory.write("b.scm", b"(define x . 5)\n");
    let third = directory.write("c.scm", b"(define y 1)\n");
    let mut cache = DiscoveryCache::new();
    assert!(discover(&mut cache, &directory, &[first.clone(), second.clone(), third.clone()]).is_err());
    assert!(cache.holds(&first));
    assert!(!cache.holds(&second));
    assert!(!cache.holds(&third));
    let mut registry = Registry::new(1, Vec::new());
    let sources = directory.sources(&[first.clone(), second]).unwrap();
    assert!(registry
        .register_discovered_lazy_plugin(&mut cache, "p".into(), vec!["a.scm".into()], Vec::new(), &sources)
        .is_err());
    assert!(cache.holds(&first));
    directory.write("a.scm", b"(define z 1)\n");
    let commands = discover(&mut cache, &directory, &[first]).unwrap();
    assert_eq!(found(&commands, "a"), Some("First."));
}
