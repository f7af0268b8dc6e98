//! Lexical path normalization.

use vstd::prelude::*;

verus! {

/// One component of a path, as a host's path parser yields them.
#[derive(Debug, PartialEq, Eq)]
pub enum PathComponent {
    /// A platform prefix such as a drive letter.
    Prefix(String),
    /// The root directory.
    RootDir,
    /// A reference to the current directory, `.`.
    CurDir,
    /// A reference to the parent directory, `..`.
    ParentDir,
    /// An ordinary name.
    Normal(String),
}

/// The mathematical value of a [`PathComponent`].
pub enum ComponentView {
    Prefix(Seq<char>),
    RootDir,
    CurDir,
    ParentDir,
    Normal(Seq<char>),
}

impl View for PathComponent {
    type V = ComponentView;

    open spec fn view(&self) -> ComponentView {
        match self {
            PathComponent::Prefix(s) => ComponentView::Prefix(s@),
            PathComponent::RootDir => ComponentView::RootDir,
            PathComponent::CurDir => ComponentView::CurDir,
            PathComponent::ParentDir => ComponentView::ParentDir,
            PathComponent::Normal(s) => ComponentView::Normal(s@),
        }
    }
}

impl Clone for PathComponent {
    fn clone(&self) -> (copy: Self)
        ensures
            copy@ == self@,
    {
        match self {
            PathComponent::Prefix(s) => PathComponent::Prefix(s.clone()),
            PathComponent::RootDir => PathComponent::RootDir,
            PathComponent::CurDir => PathComponent::CurDir,
            PathComponent::ParentDir => PathComponent::ParentDir,
            PathComponent::Normal(s) => PathComponent::Normal(s.clone()),
        }
    }
}

/// The values of a sequence of components.
pub open spec fn component_views(components: Seq<PathComponent>) -> Seq<ComponentView> {
    components.map_values(|c: PathComponent| c@)
}

/// The stack after one more component: `..` pops the component pushed last,
/// or is kept when there is nothing to pop; anything else is pushed.
pub open spec fn push_component(stack: Seq<ComponentView>, component: ComponentView) -> Seq<
    ComponentView,
> {
    if component is ParentDir && stack.len() > 0 {
        stack.drop_last()
    } else {
        stack.push(component)
    }
}

/// The stack after walking `components` from left to right.
pub open spec fn walk_components(components: Seq<ComponentView>) -> Seq<ComponentView>
    decreases components.len(),
{
    if components.len() == 0 {
        Seq::empty()
    } else {
        push_component(walk_components(components.drop_last()), components.last())
    }
}

/// The normal form of a path: the walked stack, followed by an empty name
/// when the path ended with a separator.
pub open spec fn normalized_components(
    components: Seq<ComponentView>,
    ends_with_slash: bool,
) -> Seq<ComponentView> {
    let stack = walk_components(components);
    if ends_with_slash {
        stack.push(ComponentView::Normal(Seq::empty()))
    } else {
        stack
    }
}

/// Whether a path, given as text, ends with the separator `/`.
pub fn ends_with_slash(path: &str) -> (ends: bool)
    ensures
        ends == (path@.len() > 0 && path@.last() == '/'),
{
    let n = path.unicode_len();
    n > 0 && path.get_char(n - 1) == '/'
}

/// Resolves the `..` components of a path without consulting the file
/// system, and keeps a trailing separator.
pub fn normalize_path(path: &Vec<PathComponent>, ends_with_slash: bool) -> (normalized: Vec<
    PathComponent,
>)
    ensures
        component_views(normalized@) == normalized_components(
            component_views(path@),
            ends_with_slash,
        ),
{
    let mut normalized: Vec<PathComponent> = Vec::new();
    let mut i: usize = 0;
    while i < path.len()
        invariant
            i <= path.len(),
            component_views(normalized@) == walk_components(component_views(path@).take(i as int)),
        decreases path.len() - i,
    {
        let ghost before = component_views(normalized@);
        let ghost prefix = component_views(path@).take(i as int + 1);
        assert(prefix.drop_last() == component_views(path@).take(i as int));
        assert(prefix.last() == path@[i as int]@);
        match &path[i] {
            PathComponent::ParentDir => {
                if normalized.len() > 0 {
                    normalized.pop();
                    assert(component_views(normalized@) == before.drop_last());
                } else {
                    normalized.push(PathComponent::ParentDir);
                    assert(component_views(normalized@) == before.push(ComponentView::ParentDir));
                }
            },
            component => {
                let copy = component.clone();
                normalized.push(copy);
                assert(component_views(normalized@) == before.push(path@[i as int]@));
            },
        }
        i += 1;
    }
    assert(component_views(path@).take(path.len() as int) == component_views(path@));
    if ends_with_slash {
        let ghost before = component_views(normalized@);
        normalized.push(PathComponent::Normal(String::new()));
        assert(component_views(normalized@) == before.push(ComponentView::Normal(Seq::empty())));
    }
    normalized
}

} // verus!
