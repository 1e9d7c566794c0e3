use darling::ast::NestedMeta;
use gronly::args::{
    ErrorKind, Field, Format, Known, Lit, LitType, MetaError, MetaItem, ModeledTestArgs, Scheduler,
    ShuttleArgs, UnmodeledTestArgs, Value,
};
use std::str::FromStr;

fn lit(l: &syn::Lit) -> Lit {
    match l {
        syn::Lit::Str(s) => Lit::Str(s.value()),
        syn::Lit::Int(i) => Lit::Int(i.base10_digits().to_string()),
        syn::Lit::Bool(b) => Lit::Bool(b.value),
        syn::Lit::Char(c) => Lit::Char(c.value()),
        syn::Lit::Float(_) => Lit::Other("float".to_string()),
        _ => Lit::Other("unknown".to_string()),
    }
}

fn path(p: &syn::Path) -> String {
    p.segments.iter().map(|s| s.ident.to_string()).collect::<Vec<_>>().join("::")
}

fn item(m: &NestedMeta) -> MetaItem {
    match m {
        NestedMeta::Lit(l) => MetaItem::Lit(lit(l)),
        NestedMeta::Meta(syn::Meta::Path(p)) => MetaItem::Path(path(p)),
        NestedMeta::Meta(syn::Meta::List(l)) => {
            let inner = NestedMeta::parse_meta_list(l.tokens.clone()).unwrap();
            MetaItem::List(path(&l.path), inner.iter().map(item).collect())
        }
        NestedMeta::Meta(syn::Meta::NameValue(nv)) => {
            let v = match &nv.value {
                syn::Expr::Lit(e) => Value::Lit(lit(&e.lit)),
                syn::Expr::Path(_) => Value::Expr("path".to_string()),
                _ => Value::Expr("unknown".to_string()),
            };
            MetaItem::NameValue(path(&nv.path), v)
        }
    }
}

fn items(src: &str) -> Vec<MetaItem> {
    let tokens = proc_macro2::TokenStream::from_str(src).unwrap();
    NestedMeta::parse_meta_list(tokens).unwrap().iter().map(item).collect()
}

fn err(kind: ErrorKind, locations: Vec<Field>) -> MetaError {
    MetaError { kind, locations }
}

#[test]
fn args_defaults() {
    let args = ModeledTestArgs::from_list(&[]).unwrap();

    let expected = ModeledTestArgs {
        notest: false,
        shuttle: ShuttleArgs {
            scheduler: Scheduler::Random,
            iters: None,
            depth: None,
        },
    };
    assert_eq!(args, expected);
}

#[test]
fn args_parses_metalist() {
    let meta = items("notest, shuttle(iters = 10, scheduler = \"pct\")");
    let args = ModeledTestArgs::from_list(&meta).unwrap();

    let expected = ModeledTestArgs {
        notest: true,
        shuttle: ShuttleArgs {
            scheduler: Scheduler::Pct,
            iters: Some(10),
            depth: None,
        },
    };
    assert_eq!(args, expected);
}

#[test]
fn args_parses_replay() {
    let meta = items("shuttle(scheduler(replay = \"hello\"))");
    let args = match ModeledTestArgs::from_list(&meta) {
        Ok(v) => v,
        Err(e) => {
            panic!("{:?}", e);
        }
    };

    let expected = ModeledTestArgs {
        notest: false,
        shuttle: ShuttleArgs {
            scheduler: Scheduler::Replay("hello".into()),
            iters: None,
            depth: None,
        },
    };
    assert_eq!(args, expected);
}

#[test]
fn args_default_impl_matches_empty_list() {
    assert_eq!(ModeledTestArgs::from_list(&[]).unwrap(), ModeledTestArgs::default());
    assert_eq!(UnmodeledTestArgs::from_list(&[]).unwrap(), UnmodeledTestArgs::default());
    assert_eq!(Scheduler::default(), Scheduler::Random);
}

#[test]
fn args_flag_forms() {
    assert!(UnmodeledTestArgs::from_list(&items("notest")).unwrap().notest);
    assert!(UnmodeledTestArgs::from_list(&items("notest = true")).unwrap().notest);
    assert!(!UnmodeledTestArgs::from_list(&items("notest = false")).unwrap().notest);
    assert!(UnmodeledTestArgs::from_list(&items("notest = \"true\"")).unwrap().notest);
    assert!(!UnmodeledTestArgs::from_list(&items("notest = \"false\"")).unwrap().notest);
    assert_eq!(
        UnmodeledTestArgs::from_list(&items("notest = \"yes\"")),
        Err(vec![err(ErrorKind::UnknownValue("yes".into()), vec![Field::Notest])])
    );
    assert_eq!(
        UnmodeledTestArgs::from_list(&items("notest(x)")),
        Err(vec![err(ErrorKind::UnsupportedFormat(Format::List), vec![Field::Notest])])
    );
    assert_eq!(
        UnmodeledTestArgs::from_list(&items("notest = 'c'")),
        Err(vec![err(ErrorKind::UnexpectedType(LitType::Char), vec![Field::Notest])])
    );
}

#[test]
fn args_unknown_duplicate_and_literal_items_are_all_reported() {
    let got = ModeledTestArgs::from_list(&items("bogus, notest, notest, \"lit\""));
    assert_eq!(
        got,
        Err(vec![
            err(
                ErrorKind::UnknownField { name: "bogus".into(), expected: Known::ModeledTestArgs },
                vec![]
            ),
            err(ErrorKind::DuplicateField(Field::Notest), vec![]),
            err(ErrorKind::UnsupportedFormat(Format::Literal), vec![]),
        ])
    );
}

#[test]
fn args_nested_errors_carry_their_fields() {
    let got = ModeledTestArgs::from_list(&items(
        "shuttle(iters = \"many\", depth = 99999999999999999999999, scheduler = \"fifo\")",
    ));
    assert_eq!(
        got,
        Err(vec![
            err(ErrorKind::UnknownValue("many".into()), vec![Field::Shuttle, Field::Iters]),
            err(ErrorKind::IntTooLarge, vec![Field::Shuttle, Field::Depth]),
            err(ErrorKind::UnknownValue("fifo".into()), vec![Field::Shuttle, Field::Scheduler]),
        ])
    );
}

#[test]
fn args_counts_accept_strings_and_plus_sign() {
    let args = ModeledTestArgs::from_list(&items("shuttle(iters = \"+7\", depth = \"3\")")).unwrap();
    assert_eq!(args.shuttle.iters, Some(7));
    assert_eq!(args.shuttle.depth, Some(3));
    assert_eq!(
        ShuttleArgs::from_list(&items("iters")),
        Err(vec![err(ErrorKind::UnsupportedFormat(Format::Word), vec![Field::Iters])])
    );
    assert_eq!(
        ShuttleArgs::from_list(&items("iters = 1.5")),
        Err(vec![err(ErrorKind::UnexpectedType(LitType::Named("float".into())), vec![Field::Iters])])
    );
}

#[test]
fn args_scheduler_forms() {
    let s = |src: &str| ShuttleArgs::from_list(&items(src)).map(|a| a.scheduler);
    assert_eq!(s("scheduler = \"random\""), Ok(Scheduler::Random));
    assert_eq!(s("scheduler = \"dfs\""), Ok(Scheduler::Dfs));
    assert_eq!(s("scheduler(pct)"), Ok(Scheduler::Pct));
    assert_eq!(
        s("scheduler = \"replay\""),
        Err(vec![err(ErrorKind::UnsupportedFormat(Format::Literal), vec![Field::Scheduler])])
    );
    assert_eq!(s("scheduler()"), Err(vec![err(ErrorKind::TooFewItems, vec![Field::Scheduler])]));
    assert_eq!(
        s("scheduler(pct, dfs)"),
        Err(vec![err(ErrorKind::TooManyItems, vec![Field::Scheduler])])
    );
    assert_eq!(
        s("scheduler(pct = 1)"),
        Err(vec![err(ErrorKind::UnsupportedFormat(Format::NonPath), vec![Field::Scheduler])])
    );
    assert_eq!(
        s("scheduler(other)"),
        Err(vec![err(
            ErrorKind::UnknownField { name: "other".into(), expected: Known::Scheduler },
            vec![Field::Scheduler]
        )])
    );
    assert_eq!(
        s("scheduler(replay = 3)"),
        Err(vec![err(ErrorKind::UnexpectedType(LitType::Int), vec![Field::Scheduler, Field::Replay])])
    );
    assert_eq!(
        s("scheduler"),
        Err(vec![err(ErrorKind::UnsupportedFormat(Format::Word), vec![Field::Scheduler])])
    );
}

#[test]
fn args_first_value_wins_over_duplicates() {
    let got = ShuttleArgs::from_list(&items("iters = 1, iters = 2"));
    assert_eq!(got, Err(vec![err(ErrorKind::DuplicateField(Field::Iters), vec![])]));
}

#[test]
fn args_shuttle_word_is_rejected() {
    assert_eq!(
        ModeledTestArgs::from_list(&items("shuttle")),
        Err(vec![err(ErrorKind::UnsupportedFormat(Format::Word), vec![Field::Shuttle])])
    );
    assert_eq!(
        ModeledTestArgs::from_list(&items("shuttle = \"x\"")),
        Err(vec![err(ErrorKind::UnexpectedType(LitType::Str), vec![Field::Shuttle])])
    );
}

#[test]
fn unmodeled_args_accept_shuttle_options() {
    let args = UnmodeledTestArgs::from_list(&items("shuttle(scheduler = \"pct\", iters = 10)")).unwrap();
    assert_eq!(args, UnmodeledTestArgs { notest: false });
    let args = UnmodeledTestArgs::from_list(&items("notest, shuttle(iters = 1)")).unwrap();
    assert!(args.notest);
    assert_eq!(
        UnmodeledTestArgs::from_list(&items("shuttle(iters = \"x\")")),
        Err(vec![err(ErrorKind::UnknownValue("x".into()), vec![Field::Shuttle, Field::Iters])])
    );
}

#[test]
fn args_malformed_list_reports_syntax_only_where_read() {
    let unparsable = || MetaItem::Malformed("shuttle".into(), "expected `,`".into());
    assert_eq!(
        ModeledTestArgs::from_list(&[unparsable()]),
        Err(vec![err(ErrorKind::Syntax("expected `,`".into()), vec![Field::Shuttle])])
    );
    assert_eq!(
        ModeledTestArgs::from_list(&[MetaItem::Malformed("bogus".into(), "expected `,`".into())]),
        Err(vec![err(ErrorKind::UnknownField { name: "bogus".into(), expected: Known::ModeledTestArgs }, vec![])])
    );
}
