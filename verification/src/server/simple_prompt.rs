//! Prompts with metadata: their arguments, the check of required arguments,
//! and the description they publish.
use vstd::prelude::*;
use crate::error::Error;
use crate::server::auth::traits::strings_view;
use crate::server::validation::str_eq;
use crate::text::{extend_chars, string_of};

verus! {

/// An argument that a prompt accepts.
#[derive(Debug, Clone)]
pub struct PromptArgument {
    /// Argument name
    pub name: String,
    /// Argument description
    pub description: Option<String>,
    /// Whether the argument is required
    pub required: bool,
}

/// The description of a prompt.
#[derive(Debug, Clone)]
pub struct PromptInfo {
    /// Prompt name
    pub name: String,
    /// Prompt description
    pub description: Option<String>,
    /// Arguments, when there are any
    pub arguments: Option<Vec<PromptArgument>>,
}

/// The text of an optional string.
pub open spec fn opt_view(s: Option<String>) -> Option<Seq<char>> {
    match s {
        Some(t) => Some(t@),
        None => None,
    }
}

/// The view of an argument: name, description and whether it is required.
pub open spec fn argument_view(a: PromptArgument) -> (Seq<char>, Option<Seq<char>>, bool) {
    (a.name@, opt_view(a.description), a.required)
}

/// The views of arguments.
pub open spec fn arguments_view(v: Seq<PromptArgument>) -> Seq<(Seq<char>, Option<Seq<char>>, bool)> {
    v.map_values(|a: PromptArgument| argument_view(a))
}

/// The first required argument whose name is not among `provided`.
pub open spec fn first_missing(args: Seq<(Seq<char>, Option<Seq<char>>, bool)>, provided: Seq<Seq<char>>) -> Option<int>
    decreases args.len(),
{
    if args.len() == 0 {
        None
    } else if args[0].2 && !provided.contains(args[0].0) {
        Some(0)
    } else {
        match first_missing(args.drop_first(), provided) {
            Some(i) => Some(i + 1),
            None => None,
        }
    }
}

/// A missing argument is a required one that was not provided.
pub proof fn lemma_first_missing(args: Seq<(Seq<char>, Option<Seq<char>>, bool)>, provided: Seq<Seq<char>>)
    ensures
        first_missing(args, provided) matches Some(i) ==> 0 <= i < args.len() && args[i].2
            && !provided.contains(args[i].0),
    decreases args.len(),
{
    if args.len() > 0 {
        lemma_first_missing(args.drop_first(), provided);
    }
}

/// The error for a missing required argument.
pub open spec fn missing_message(name: Seq<char>) -> Seq<char> {
    "Required argument '"@ + name + "' is missing"@
}

fn clone_opt_string(s: &Option<String>) -> (r: Option<String>)
    ensures
        opt_view(r) == opt_view(*s),
{
    match s {
        Some(t) => Some(t.clone()),
        None => None,
    }
}

fn clone_arguments(v: &Vec<PromptArgument>) -> (r: Vec<PromptArgument>)
    ensures
        arguments_view(r@) == arguments_view(v@),
{
    let mut r: Vec<PromptArgument> = Vec::new();
    let mut i: usize = 0;
    while i < v.len()
        invariant
            i <= v@.len(),
            r@.len() == i,
            forall|j: int| 0 <= j < i ==> argument_view(r@[j]) == argument_view(v@[j]),
        decreases v@.len() - i,
    {
        let a = PromptArgument {
            name: v[i].name.clone(),
            description: clone_opt_string(&v[i].description),
            required: v[i].required,
        };
        r.push(a);
        i = i + 1;
    }
    assert(arguments_view(r@) =~= arguments_view(v@));
    r
}

fn contains_name(provided: &[String], name: &str) -> (b: bool)
    ensures
        b == strings_view(provided@).contains(name@),
{
    let mut i: usize = 0;
    while i < provided.len()
        invariant
            i <= provided@.len(),
            forall|j: int| 0 <= j < i ==> provided@[j]@ != name@,
        decreases provided@.len() - i,
    {
        if str_eq(provided[i].as_str(), name) {
            assert(strings_view(provided@)[i as int] == name@);
            return true;
        }
        i = i + 1;
    }
    proof {
        if strings_view(provided@).contains(name@) {
            let j = choose|j: int| 0 <= j < strings_view(provided@).len() && strings_view(provided@)[j] == name@;
            assert(provided@[j]@ == name@);
        }
    }
    false
}

/// Check that every required argument is among the provided names; the
/// first one missing is reported as a validation error.
pub fn check_arguments(arguments: &[PromptArgument], provided: &[String]) -> (r: Result<(), Error>)
    ensures
        match first_missing(arguments_view(arguments@), strings_view(provided@)) {
            None => r is Ok,
            Some(i) => r matches Err(Error::Validation(m)) && m@ == missing_message(
                arguments@[i].name@,
            ),
        },
{
    let ghost view = arguments_view(arguments@);
    let ghost names = strings_view(provided@);
    let mut i: usize = 0;
    assert(view.subrange(0, view.len() as int) == view);
    while i < arguments.len()
        invariant
            i <= arguments@.len(),
            view == arguments_view(arguments@),
            names == strings_view(provided@),
            first_missing(view, names) == match first_missing(view.subrange(i as int, view.len() as int), names) {
                Some(k) => Some(k + i),
                None => None::<int>,
            },
        decreases arguments@.len() - i,
    {
        let ghost rest = view.subrange(i as int, view.len() as int);
        assert(rest.drop_first() == view.subrange(i + 1, view.len() as int));
        assert(rest[0] == argument_view(arguments@[i as int]));
        if arguments[i].required && !contains_name(provided, arguments[i].name.as_str()) {
            let mut text: Vec<char> = Vec::new();
            extend_chars(&mut text, "Required argument '");
            extend_chars(&mut text, arguments[i].name.as_str());
            extend_chars(&mut text, "' is missing");
            let msg = string_of(text.as_slice());
            return Err(Error::validation(msg.as_str()));
        }
        i = i + 1;
    }
    assert(view.subrange(i as int, view.len() as int).len() == 0);
    Ok(())
}

/// The description that a prompt publishes: no argument list when there are
/// no arguments.
pub fn prompt_info(name: &String, description: &Option<String>, arguments: &Vec<PromptArgument>) -> (p: PromptInfo)
    ensures
        p.name@ == name@,
        opt_view(p.description) == opt_view(*description),
        match p.arguments {
            Some(a) => arguments@.len() > 0 && arguments_view(a@) == arguments_view(arguments@),
            None => arguments@.len() == 0,
        },
{
    PromptInfo {
        name: name.clone(),
        description: clone_opt_string(description),
        arguments: if arguments.len() == 0 {
            None
        } else {
            Some(clone_arguments(arguments))
        },
    }
}

/// A prompt with an asynchronous handler.
pub struct SimplePrompt<F> {
    name: String,
    description: Option<String>,
    arguments: Vec<PromptArgument>,
    handler: F,
}

/// A prompt with a synchronous handler.
pub struct SyncPrompt<F> {
    name: String,
    description: Option<String>,
    arguments: Vec<PromptArgument>,
    handler: F,
}

impl<F> SimplePrompt<F> {
    /// The handler.
    pub closed spec fn handler_fn(&self) -> F {
        self.handler
    }

    /// Name, description and arguments.
    pub closed spec fn parts(&self) -> (Seq<char>, Option<Seq<char>>, Seq<(Seq<char>, Option<Seq<char>>, bool)>) {
        (self.name@, opt_view(self.description), arguments_view(self.arguments@))
    }

    /// Create a new prompt with a name and handler.
    pub fn new(name: String, handler: F) -> (p: SimplePrompt<F>)
        ensures
            p.handler_fn() == handler,
            p.parts() == (name@, None::<Seq<char>>, Seq::<(Seq<char>, Option<Seq<char>>, bool)>::empty()),
    {
        let p = SimplePrompt { name, description: None, arguments: Vec::new(), handler };
        assert(arguments_view(p.arguments@) =~= Seq::<(Seq<char>, Option<Seq<char>>, bool)>::empty());
        p
    }

    /// Set the description for this prompt.
    pub fn with_description(self, description: String) -> (p: SimplePrompt<F>)
        ensures
            p.handler_fn() == self.handler_fn(),
            p.parts() == (self.parts().0, Some(description@), self.parts().2),
    {
        SimplePrompt { description: Some(description), ..self }
    }

    /// Add an argument to this prompt.
    pub fn with_argument(self, name: String, description: String, required: bool) -> (p: SimplePrompt<F>)
        ensures
            p.handler_fn() == self.handler_fn(),
            p.parts() == (self.parts().0, self.parts().1, self.parts().2.push((name@, Some(description@), required))),
    {
        let mut s = self;
        let ghost before = s.arguments@;
        s.arguments.push(PromptArgument { name, description: Some(description), required });
        assert(arguments_view(s.arguments@) =~= arguments_view(before).push(argument_view(s.arguments@.last())));
        s
    }

    /// Set all arguments at once.
    pub fn with_arguments(self, arguments: Vec<PromptArgument>) -> (p: SimplePrompt<F>)
        ensures
            p.handler_fn() == self.handler_fn(),
            p.parts() == (self.parts().0, self.parts().1, arguments_view(arguments@)),
    {
        SimplePrompt { arguments, ..self }
    }

    /// Check the required arguments against the names provided.
    pub fn check_arguments(&self, provided: &[String]) -> (r: Result<(), Error>)
        ensures
            match first_missing(self.parts().2, strings_view(provided@)) {
                None => r is Ok,
                Some(i) => r matches Err(Error::Validation(m)) && m@ == missing_message(self.parts().2[i].0),
            },
    {
        proof {
            lemma_first_missing(self.parts().2, strings_view(provided@));
        }
        check_arguments(self.arguments.as_slice(), provided)
    }

    /// The prompt's description.
    pub fn metadata(&self) -> (p: Option<PromptInfo>)
        ensures
            p matches Some(info) && info.name@ == self.parts().0 && opt_view(info.description)
                == self.parts().1 && match info.arguments {
                Some(a) => self.parts().2.len() > 0 && arguments_view(a@) == self.parts().2,
                None => self.parts().2.len() == 0,
            },
    {
        Some(prompt_info(&self.name, &self.description, &self.arguments))
    }

    /// The handler.
    pub fn handler(&self) -> (h: &F)
        ensures
            *h == self.handler_fn(),
    {
        &self.handler
    }
}

impl<F> SyncPrompt<F> {
    /// The handler.
    pub closed spec fn handler_fn(&self) -> F {
        self.handler
    }

    /// Name, description and arguments.
    pub closed spec fn parts(&self) -> (Seq<char>, Option<Seq<char>>, Seq<(Seq<char>, Option<Seq<char>>, bool)>) {
        (self.name@, opt_view(self.description), arguments_view(self.arguments@))
    }

    /// Create a new synchronous prompt with a name and handler.
    pub fn new(name: String, handler: F) -> (p: SyncPrompt<F>)
        ensures
            p.handler_fn() == handler,
            p.parts() == (name@, None::<Seq<char>>, Seq::<(Seq<char>, Option<Seq<char>>, bool)>::empty()),
    {
        let p = SyncPrompt { name, description: None, arguments: Vec::new(), handler };
        assert(arguments_view(p.arguments@) =~= Seq::<(Seq<char>, Option<Seq<char>>, bool)>::empty());
        p
    }

    /// Set the description for this prompt.
    pub fn with_description(self, description: String) -> (p: SyncPrompt<F>)
        ensures
            p.handler_fn() == self.handler_fn(),
            p.parts() == (self.parts().0, Some(description@), self.parts().2),
    {
        SyncPrompt { description: Some(description), ..self }
    }

    /// Add an argument to this prompt.
    pub fn with_argument(self, name: String, description: String, required: bool) -> (p: SyncPrompt<F>)
        ensures
            p.handler_fn() == self.handler_fn(),
            p.parts() == (self.parts().0, self.parts().1, self.parts().2.push((name@, Some(description@), required))),
    {
        let mut s = self;
        let ghost before = s.arguments@;
        s.arguments.push(PromptArgument { name, description: Some(description), required });
        assert(arguments_view(s.arguments@) =~= arguments_view(before).push(argument_view(s.arguments@.last())));
        s
    }

    /// Set all arguments at once.
    pub fn with_arguments(self, arguments: Vec<PromptArgument>) -> (p: SyncPrompt<F>)
        ensures
            p.handler_fn() == self.handler_fn(),
            p.parts() == (self.parts().0, self.parts().1, arguments_view(arguments@)),
    {
        SyncPrompt { arguments, ..self }
    }

    /// Check the required arguments against the names provided.
    pub fn check_arguments(&self, provided: &[String]) -> (r: Result<(), Error>)
        ensures
            match first_missing(self.parts().2, strings_view(provided@)) {
                None => r is Ok,
                Some(i) => r matches Err(Error::Validation(m)) && m@ == missing_message(self.parts().2[i].0),
            },
    {
        proof {
            lemma_first_missing(self.parts().2, strings_view(provided@));
        }
        check_arguments(self.arguments.as_slice(), provided)
    }

    /// The prompt's description.
    pub fn metadata(&self) -> (p: Option<PromptInfo>)
        ensures
            p matches Some(info) && info.name@ == self.parts().0 && opt_view(info.description)
                == self.parts().1 && match info.arguments {
                Some(a) => self.parts().2.len() > 0 && arguments_view(a@) == self.parts().2,
                None => self.parts().2.len() == 0,
            },
    {
        Some(prompt_info(&self.name, &self.description, &self.arguments))
    }

    /// The handler.
    pub fn handler(&self) -> (h: &F)
        ensures
            *h == self.handler_fn(),
    {
        &self.handler
    }
}

} // verus!
