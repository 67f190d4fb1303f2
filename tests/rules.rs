use fortitude::external_functions::ExternalFunction;
use fortitude::implicit_typing::{
    implicit_typing, interface_implicit_typing, superfluous_implicit_none, ImplicitTyping,
    InterfaceImplicitTyping, SuperfluousImplicitNone,
};
use fortitude::parse::parse;
use fortitude::rules::Method;
use fortitude::settings::default_settings;
use fortitude::source_file::SourceFile;
use fortitude::syntax::SyntaxTree;
use fortitude::violation::Violation;

type TreeMethod = fn(&SyntaxTree, &SourceFile) -> Vec<Violation>;

fn source(text: &str) -> SourceFile {
    SourceFile::new("test".to_string(), text.to_string())
}

fn test_tree_method(method: TreeMethod, text: &str, expected: Option<Vec<Violation>>) {
    let src = source(text);
    let tree = parse(&src).expect("the source parses");
    let actual = method(&tree, &src);
    assert_eq!(actual, expected.unwrap_or_default());
}

fn apply_external(text: &str) -> Vec<Violation> {
    let src = source(text);
    let tree = parse(&src).expect("the source parses");
    let rule = ExternalFunction::new(&default_settings());
    rule.apply(&tree, &src)
}

#[test]
fn test_function_not_in_module() {
    let text = "
integer function double(x)
  integer, intent(in) :: x
  double = 2 * x
end function

subroutine triple(x)
  integer, intent(inout) :: x
  x = 3 * x
end subroutine
";
    let expected: Vec<Violation> = [(2, 1, "function"), (7, 1, "subroutine")]
        .iter()
        .map(|(line, col, kind)| {
            Violation::new(
                format!("{kind} not contained within (sub)module or program"),
                *line,
                *col,
            )
        })
        .collect();
    assert_eq!(apply_external(text), expected);
}

#[test]
fn test_function_in_module() {
    let text = "
module my_module
    implicit none
contains
    integer function double(x)
      integer, intent(in) :: x
      double = 2 * x
    end function

    subroutine triple(x)
      integer, intent(inout) :: x
      x = 3 * x
    end subroutine
end module
";
    let expected: Vec<Violation> = vec![];
    assert_eq!(apply_external(text), expected);
}

#[test]
fn test_implicit_typing() {
    let text = "
module my_module
    parameter(N = 1)
end module

program my_program
    write(*,*) 42
end program
";
    let expected = [(2, 1, "module"), (6, 1, "program")]
        .iter()
        .map(|(line, col, kind)| {
            Violation::new(format!("{} missing 'implicit none'", kind), *line, *col)
        })
        .collect();
    test_tree_method(implicit_typing, text, Some(expected));
}

#[test]
fn test_implicit_none() {
    let text = "
            module my_module
                implicit none
            contains
                integer function double(x)
                  integer, intent(in) :: x
                  double = 2 * x
                end function
            end module

            program my_program
                implicit none
                integer, paramter :: x = 2
                write(*,*) x
            end program
            ";
    test_tree_method(implicit_typing, text, None);
}

#[test]
fn test_interface_implicit_typing() {
    let text = "
module my_module
    implicit none
    interface
        integer function myfunc(x)
            integer, intent(in) :: x
        end function
    end interface
end module

program my_program
    implicit none
    interface
        subroutine myfunc2(x)
            integer, intent(inout) :: x
        end subroutine
    end interface
    write(*,*) 42
end program
";
    let expected = [(5, 9, "function"), (14, 9, "subroutine")]
        .iter()
        .map(|(line, col, kind)| {
            Violation::new(format!("interface {} missing 'implicit none'", kind), *line, *col)
        })
        .collect();
    test_tree_method(interface_implicit_typing, text, Some(expected));
}

#[test]
fn test_interface_implicit_none() {
    let text = "
            module my_module
                implicit none
                interface
                    integer function myfunc(x)
                        implicit none
                        integer, intent(in) :: x
                    end function
                end interface
            end module

            program my_program
                implicit none
                interface
                    subroutine mysub(x)
                        implicit none
                        integer, intent(inout) :: x
                    end subroutine
                end interface
                write(*,*) 42
            end program
            ";
    test_tree_method(interface_implicit_typing, text, None);
}

#[test]
fn test_superfluous_implicit_none() {
    let text = "
module my_module
    implicit none
contains
    integer function myfunc(x)
        implicit none
        integer, intent(in) :: x
        myfunc = x * 2
    end function
    subroutine mysub(x)
        implicit none
        integer, intent(inout) :: x
        x = x * 2
    end subroutine
end module

program my_program
    implicit none

    write(*,*) 42

contains
    integer function myfunc2(x)
        implicit none
        integer, intent(in) :: x
        myfunc2 = x * 2
    end function
    subroutine mysub2(x)
        implicit none
        integer, intent(inout) :: x
        x = x * 2
    end subroutine
end program
";
    let expected = [
        (6, 9, "module"),
        (11, 9, "module"),
        (24, 9, "program"),
        (29, 9, "program"),
    ]
    .iter()
    .map(|(line, col, kind)| {
        let msg = format!(
            "'implicit none' is set on the enclosing {}, and isn't needed here",
            kind
        );
        Violation::new(msg, *line, *col)
    })
    .collect();
    test_tree_method(superfluous_implicit_none, text, Some(expected));
}

#[test]
fn test_no_superfluous_implicit_none() {
    let text = "
            module my_module
                implicit none

                interface
                    integer function interfunc(x)
                        implicit none
                        integer, intent(in) :: x
                    end function
                end interface

            contains
                integer function myfunc(x)
                    integer, intent(in) :: x
                    myfunc = x * 2
                end function
                subroutine mysub(x)
                    integer, intent(inout) :: x
                    x = x * 2
                end subroutine
            end module

            program my_program
                implicit none

                write(*,*) 42

            contains
                integer function myfunc2(x)
                    integer, intent(in) :: x
                    myfunc2 = x * 2
                end function
                subroutine mysub2(x)
                    integer, intent(inout) :: x
                    x = x * 2
                end subroutine
            end program
            ";
    test_tree_method(superfluous_implicit_none, text, None);
}

#[test]
fn function_wrapped_in_module_is_accepted() {
    let bare = "
integer function double(x)
  double = 2 * x
end function
";
    assert_eq!(apply_external(bare).len(), 1);
    let wrapped = "
module m
  implicit none
contains
integer function double(x)
  double = 2 * x
end function
end module
";
    assert!(apply_external(wrapped).is_empty());
}

#[test]
fn adding_implicit_none_to_interface_function_removes_violation() {
    let missing = "
module m
    implicit none
    interface
        integer function f(x)
            integer, intent(in) :: x
        end function
    end interface
end module
";
    let src = source(missing);
    let tree = parse(&src).unwrap();
    let found = InterfaceImplicitTyping {}.apply(&tree, &src);
    assert_eq!(
        found,
        vec![Violation::new("interface function missing 'implicit none'".to_string(), 5, 9)]
    );
    let fixed = "
module m
    implicit none
    interface
        integer function f(x)
            implicit none
            integer, intent(in) :: x
        end function
    end interface
end module
";
    let src = source(fixed);
    let tree = parse(&src).unwrap();
    assert!(InterfaceImplicitTyping {}.apply(&tree, &src).is_empty());
}

#[test]
fn submodule_and_empty_module_rules() {
    let text = "
module m
end module
";
    let src = source(text);
    let tree = parse(&src).unwrap();
    let found = ImplicitTyping {}.apply(&tree, &src);
    assert_eq!(found, vec![Violation::new("module missing 'implicit none'".to_string(), 2, 1)]);
}

#[test]
fn superfluous_anchors_at_inner_statement() {
    let text = "
module m
  implicit none
contains
  subroutine s()
    implicit none
  end subroutine
end module
";
    let src = source(text);
    let tree = parse(&src).unwrap();
    let found = SuperfluousImplicitNone {}.apply(&tree, &src);
    assert_eq!(
        found,
        vec![Violation::new(
            "'implicit none' is set on the enclosing module, and isn't needed here".to_string(),
            6,
            5
        )]
    );
}

#[test]
fn rule_methods_and_explanations() {
    assert_eq!(ImplicitTyping {}.method(), Method::Tree);
    assert_eq!(InterfaceImplicitTyping {}.method(), Method::Tree);
    assert_eq!(SuperfluousImplicitNone {}.method(), Method::Query);
    let ext = ExternalFunction::new(&default_settings());
    assert_eq!(ext.entrypoints(), vec!["function", "subroutine"]);
    assert!(ext.explain().contains("(sub)modules or programs"));
    assert!(ImplicitTyping {}.explain().contains("implicit none"));
}

#[test]
fn parse_builds_pre_order_arena() {
    let src = source("module m\n  implicit none\nend module\n");
    let tree = parse(&src).unwrap();
    assert_eq!(tree.nodes[0].kind, "translation_unit");
    assert_eq!(tree.nodes[0].parent, None);
    assert_eq!(tree.nodes[1].kind, "module");
    assert_eq!(tree.nodes[1].parent, Some(0));
    assert!(tree.nodes[0].children.contains(&1));
    for i in 1..tree.nodes.len() {
        assert!(tree.nodes[i - 1].start <= tree.nodes[i].start);
        let p = tree.nodes[i].parent.unwrap();
        assert!(p < i);
        assert!(tree.nodes[p].children.contains(&i));
        assert!(tree.nodes[i].end <= src.source_text().len());
    }
    assert!(tree.child_is_implicit_none(1));
}
