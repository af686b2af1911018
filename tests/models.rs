use rustowl_models::{
    Error, File, Function, Item, Loc, MirBasicBlock, MirDecl, MirRval, MirStatement,
    MirTerminator, MirVariable, MirVariables, Range, Workspace,
};

fn range(from: u32, until: u32) -> Range {
    Range::new(Loc(from), Loc(until))
}

fn function_with_decl(local_index: usize) -> Function {
    Function {
        basic_blocks: vec![MirBasicBlock {
            statements: vec![MirStatement::StorageLive { target_local_index: local_index, range: range(0, 1) }],
            terminator: Some(MirTerminator::Other),
        }],
        decls: vec![MirDecl::Other {
            local_index,
            ty: String::from("i32"),
            lives: vec![range(0, 4)],
            drop: false,
            drop_range: vec![],
            must_live_at: vec![],
        }],
    }
}

fn workspace_of(entries: Vec<(&str, Vec<Function>)>) -> Workspace {
    let mut ws = Workspace::new();
    for (path, items) in entries {
        ws.insert(String::from(path), File { items });
    }
    ws
}

#[test]
fn loc_ascii_positions() {
    assert_eq!(Loc::new("abc", 0, 0), Loc(0));
    assert_eq!(Loc::new("abc", 1, 0), Loc(1));
    assert_eq!(Loc::new("abc", 2, 0), Loc(2));
}

#[test]
fn loc_relative_to_offset() {
    assert_eq!(Loc::new("abc", 12, 10).0, 2);
    assert_eq!(Loc::new("abc", 10, 10).0, 0);
}

#[test]
fn loc_clamps_position_before_offset() {
    assert_eq!(Loc::new("abc", 2, 5).0, 0);
    assert_eq!(Loc::new("héllo", 0, 7).0, 0);
    assert_eq!(Loc::new("", 1, 2).0, 0);
}

#[test]
fn loc_at_end_of_text() {
    assert_eq!(Loc::new("abc", 3, 0).0, 0);
    assert_eq!(Loc::new("abc", 9, 0).0, 0);
    assert_eq!(Loc::new("", 0, 0).0, 0);
}

#[test]
fn loc_multi_byte() {
    // 'é' takes bytes 1 and 2, so 'l' starts at byte 3.
    assert_eq!(Loc::new("héllo", 3, 0).0, 2);
    assert_eq!(Loc::new("héllo", 1, 0).0, 1);
    assert_eq!(Loc::new("héllo", 2, 0).0, 2);
    assert_eq!(Loc::new("héllo", 5, 0).0, 4);
}

#[test]
fn loc_three_and_four_byte_chars() {
    let s = "a€😀b";
    assert_eq!(Loc::new(s, 1, 0).0, 1);
    assert_eq!(Loc::new(s, 4, 0).0, 2);
    assert_eq!(Loc::new(s, 5, 0).0, 3);
    assert_eq!(Loc::new(s, 8, 0).0, 3);
    assert_eq!(Loc::new(s, 9, 0).0, 0);
}

#[test]
fn loc_monotonic_over_positions() {
    let text = "héllo wörld";
    let offset = 100;
    let mut last = 0;
    for byte_pos in offset..offset + 12 {
        let loc = Loc::new(text, byte_pos, offset).0;
        assert!(loc >= last, "position {} went back to {}", byte_pos, loc);
        last = loc;
    }
    assert_eq!(last, 9);
}

#[test]
fn range_new_keeps_ends() {
    let r = Range::new(Loc(7), Loc(3));
    assert_eq!(r.from, Loc(7));
    assert_eq!(r.until, Loc(3));
}

#[test]
fn mir_variables_first_push_wins() {
    let a = range(0, 1);
    let b = range(2, 3);
    let c = range(4, 5);
    let d = range(6, 7);
    let mut vars = MirVariables::new();
    vars.push(MirVariable::User { index: 1, live: a, dead: b });
    vars.push(MirVariable::Other { index: 1, live: c, dead: d });
    let out = vars.to_vec();
    assert_eq!(out, vec![MirVariable::User { index: 1, live: a, dead: b }]);
}

#[test]
fn mir_variables_keeps_one_per_index() {
    let mut vars = MirVariables::new();
    vars.push(MirVariable::Other { index: 3, live: range(0, 1), dead: range(1, 2) });
    vars.push(MirVariable::User { index: 0, live: range(0, 2), dead: range(2, 3) });
    vars.push(MirVariable::User { index: 3, live: range(5, 6), dead: range(6, 7) });
    vars.push(MirVariable::Other { index: 8, live: range(1, 1), dead: range(1, 1) });
    let mut out = vars.to_vec();
    out.sort_by_key(|v| match v {
        MirVariable::User { index, .. } | MirVariable::Other { index, .. } => *index,
    });
    assert_eq!(
        out,
        vec![
            MirVariable::User { index: 0, live: range(0, 2), dead: range(2, 3) },
            MirVariable::Other { index: 3, live: range(0, 1), dead: range(1, 2) },
            MirVariable::Other { index: 8, live: range(1, 1), dead: range(1, 1) },
        ]
    );
}

#[test]
fn mir_variables_empty() {
    assert!(MirVariables::new().to_vec().is_empty());
}

#[test]
fn workspace_merge_new_file() {
    let f1 = function_with_decl(1);
    let f2 = function_with_decl(2);
    let a = workspace_of(vec![("a.rs", vec![f1.clone()])]);
    let b = workspace_of(vec![("b.rs", vec![f2.clone()])]);
    let m = a.merge(b);
    assert_eq!(m.len(), 2);
    assert_eq!(m.get(&String::from("a.rs")).unwrap().items, vec![f1]);
    assert_eq!(m.get(&String::from("b.rs")).unwrap().items, vec![f2]);
}

#[test]
fn workspace_merge_same_file() {
    let f1 = function_with_decl(1);
    let f2 = function_with_decl(2);
    let a = workspace_of(vec![("a.rs", vec![f1.clone()])]);
    let b = workspace_of(vec![("a.rs", vec![f2.clone()])]);
    let m = a.merge(b);
    assert_eq!(m.len(), 1);
    assert_eq!(m.get(&String::from("a.rs")).unwrap().items, vec![f1, f2]);
}

#[test]
fn workspace_merge_keeps_duplicate_functions() {
    let f1 = function_with_decl(1);
    let a = workspace_of(vec![("a.rs", vec![f1.clone()]), ("c.rs", vec![])]);
    let b = workspace_of(vec![("a.rs", vec![f1.clone()]), ("b.rs", vec![f1.clone()])]);
    let m = a.merge(b);
    assert_eq!(m.len(), 3);
    assert_eq!(m.get(&String::from("a.rs")).unwrap().items, vec![f1.clone(), f1.clone()]);
    assert_eq!(m.get(&String::from("b.rs")).unwrap().items, vec![f1]);
    assert!(m.get(&String::from("c.rs")).unwrap().items.is_empty());
    assert!(m.get(&String::from("d.rs")).is_none());
}

#[test]
fn workspace_merge_order_follows_merge_order() {
    let f1 = function_with_decl(1);
    let f2 = function_with_decl(2);
    let ab = workspace_of(vec![("a.rs", vec![f1.clone()])])
        .merge(workspace_of(vec![("a.rs", vec![f2.clone()])]));
    let ba = workspace_of(vec![("a.rs", vec![f2.clone()])])
        .merge(workspace_of(vec![("a.rs", vec![f1.clone()])]));
    assert_eq!(ab.get(&String::from("a.rs")).unwrap().items, vec![f1.clone(), f2.clone()]);
    assert_eq!(ba.get(&String::from("a.rs")).unwrap().items, vec![f2, f1]);
}

#[test]
fn workspace_merge_with_empty() {
    let f1 = function_with_decl(1);
    let m = Workspace::new().merge(workspace_of(vec![("a.rs", vec![f1.clone()])]));
    assert_eq!(m.len(), 1);
    assert_eq!(m.get(&String::from("a.rs")).unwrap().items, vec![f1.clone()]);
    let n = workspace_of(vec![("a.rs", vec![f1.clone()])]).merge(Workspace::new());
    assert_eq!(n.into_files(), vec![(String::from("a.rs"), File { items: vec![f1] })]);
}

#[test]
fn workspace_insert_replaces_file() {
    let f1 = function_with_decl(1);
    let f2 = function_with_decl(2);
    let ws = workspace_of(vec![("a.rs", vec![f1]), ("a.rs", vec![f2.clone()])]);
    assert_eq!(ws.len(), 1);
    assert_eq!(ws.get(&String::from("a.rs")).unwrap().items, vec![f2]);
}

#[test]
fn model_values_compare_by_content() {
    let rval = MirRval::Borrow { target_local_index: 2, range: range(1, 4), mutable: true, outlive: None };
    let stmt = MirStatement::Assign { target_local_index: 1, range: range(0, 5), rval: Some(rval.clone()) };
    assert_eq!(stmt.clone(), stmt);
    assert_ne!(rval, MirRval::Move { target_local_index: 2, range: range(1, 4) });
    let item = Item::Function { span: range(0, 9), mir: function_with_decl(0) };
    assert_eq!(item.clone(), item);
    let call = MirTerminator::Call { destination_local_index: 0, fn_span: range(3, 8) };
    assert_ne!(call, MirTerminator::Drop { local_index: 0, range: range(3, 8) });
    let decl = MirDecl::User {
        local_index: 1,
        name: String::from("x"),
        span: range(4, 5),
        ty: String::from("String"),
        lives: vec![range(4, 9)],
        drop: true,
        drop_range: vec![range(9, 9)],
        must_live_at: vec![range(6, 7)],
    };
    assert_eq!(decl.clone(), decl);
    assert_ne!(Error::SyntaxError, Error::UnknownError);
    assert_ne!(Error::LocalDeclareNotFound, Error::LocalIsNotUserVariable);
}
