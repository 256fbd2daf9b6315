use vstd::prelude::*;

verus! {

// ---------------------------------------------------------------------------
// Token types
// ---------------------------------------------------------------------------

/// Modifier keys that a tag can press or release.
#[derive(Debug, Clone, Copy, PartialEq, Eq)]
pub enum Key {
    Shift,
    Control,
    Alt,
    Command,
}

/// Mouse buttons and scroll directions that a tag can press, release or click.
#[derive(Debug, Clone, Copy, PartialEq, Eq)]
pub enum Button {
    Left,
    Middle,
    Right,
    ScrollUp,
    ScrollDown,
    ScrollLeft,
    ScrollRight,
}

/// One input action produced by the tokenizer.
#[derive(Debug, Clone)]
pub enum Token {
    Sequence(String),
    Unicode(String),
    KeyUp(Key),
    KeyDown(Key),
    MouseUp(Button),
    MouseDown(Button),
    Click(Button),
}

/// The mathematical value of a [`Token`]: strings are taken by their characters.
pub enum TokenModel {
    Sequence(Seq<char>),
    Unicode(Seq<char>),
    KeyUp(Key),
    KeyDown(Key),
    MouseUp(Button),
    MouseDown(Button),
    Click(Button),
}

impl View for Token {
    type V = TokenModel;

    open spec fn view(&self) -> TokenModel {
        match self {
            Token::Sequence(s) => TokenModel::Sequence(s@),
            Token::Unicode(s) => TokenModel::Unicode(s@),
            Token::KeyUp(k) => TokenModel::KeyUp(*k),
            Token::KeyDown(k) => TokenModel::KeyDown(*k),
            Token::MouseUp(b) => TokenModel::MouseUp(*b),
            Token::MouseDown(b) => TokenModel::MouseDown(*b),
            Token::Click(b) => TokenModel::Click(*b),
        }
    }
}

/// The tokens of a sequence of [`Token`]s, each taken by its view.
pub open spec fn tokens_model(v: Seq<Token>) -> Seq<TokenModel> {
    v.map_values(|t: Token| t@)
}

/// The three phases of a macro: what is played when it starts (`down`), what is
/// played over and over while it is held (`repeat`) and what is played when it is
/// released (`up`).
#[derive(Debug, Clone)]
pub struct StateToken {
    pub down: Vec<Token>,
    pub repeat: Vec<Token>,
    pub up: Vec<Token>,
}

/// The mathematical value of a [`StateToken`].
pub struct StateTokenModel {
    pub down: Seq<TokenModel>,
    pub repeat: Seq<TokenModel>,
    pub up: Seq<TokenModel>,
}

impl View for StateToken {
    type V = StateTokenModel;

    open spec fn view(&self) -> StateTokenModel {
        StateTokenModel {
            down: tokens_model(self.down@),
            repeat: tokens_model(self.repeat@),
            up: tokens_model(self.up@),
        }
    }
}

impl Default for StateToken {
    fn default() -> (r: StateToken)
        ensures
            r.down@.len() == 0,
            r.repeat@.len() == 0,
            r.up@.len() == 0,
    {
        StateToken { down: Vec::new(), repeat: Vec::new(), up: Vec::new() }
    }
}

// ---------------------------------------------------------------------------
// The grammar: from characters to lexemes
// ---------------------------------------------------------------------------

/// A piece of the input: a literal character (an escaped brace included) or the
/// characters of a tag written between braces.
pub enum Lexeme {
    Text(char),
    Tag(Seq<char>),
}

/// Reads a tag whose current character is `c`, the next unread character being
/// at `j`. A lone `}` ends the tag; `}}` and `{{` stand for a brace; a lone `{`
/// repeats the current character. Gives the tag's characters and the position
/// after its closing brace, or `None` when the input ends before the tag closes
/// (the tag never ends).
pub open spec fn tag_scan(s: Seq<char>, j: int, c: char) -> Option<(Seq<char>, int)>
    decreases s.len() - j,
{
    if j < 0 || j >= s.len() {
        None
    } else if s[j] == '{' {
        if j + 1 < s.len() && s[j + 1] == '{' {
            prepend(c, tag_scan(s, j + 2, '{'))
        } else {
            prepend(c, tag_scan(s, j + 1, c))
        }
    } else if s[j] == '}' {
        if j + 1 < s.len() && s[j + 1] == '}' {
            prepend(c, tag_scan(s, j + 2, '}'))
        } else {
            Some((seq![c], j + 1))
        }
    } else {
        prepend(c, tag_scan(s, j + 1, s[j]))
    }
}

/// `c` put in front of the tag characters of a scan result.
pub open spec fn prepend(c: char, r: Option<(Seq<char>, int)>) -> Option<(Seq<char>, int)> {
    match r {
        Some((t, e)) => Some((seq![c] + t, e)),
        None => None,
    }
}

/// A tag that closes ends past its start and within the input.
pub proof fn lemma_tag_scan_bounds(s: Seq<char>, j: int, c: char)
    ensures
        tag_scan(s, j, c) matches Some((t, e)) ==> j < e <= s.len() && t.len() > 0,
    decreases s.len() - j,
{
    if 0 <= j < s.len() {
        if s[j] == '{' {
            if j + 1 < s.len() && s[j + 1] == '{' {
                lemma_tag_scan_bounds(s, j + 2, '{');
            } else {
                lemma_tag_scan_bounds(s, j + 1, c);
            }
        } else if s[j] == '}' {
            if j + 1 < s.len() && s[j + 1] == '}' {
                lemma_tag_scan_bounds(s, j + 2, '}');
            }
        } else {
            lemma_tag_scan_bounds(s, j + 1, s[j]);
        }
    }
}

/// `x` put in front of a lexeme sequence.
pub open spec fn cons(x: Lexeme, r: Option<Seq<Lexeme>>) -> Option<Seq<Lexeme>> {
    match r {
        Some(l) => Some(seq![x] + l),
        None => None,
    }
}

/// The lexemes of the input from position `i` on, or `None` when a tag in it
/// never closes.
///
/// `{{` and `}}` are literal braces; `{` followed by another character opens a
/// tag; a `{` that ends the input is dropped; a `}` that is not doubled is
/// dropped together with the character after it.
pub open spec fn lex_from(s: Seq<char>, i: int) -> Option<Seq<Lexeme>>
    decreases s.len() - i,
{
    if i < 0 || i >= s.len() {
        Some(seq![])
    } else if s[i] == '{' {
        if i + 1 >= s.len() {
            Some(seq![])
        } else if s[i + 1] == '{' {
            cons(Lexeme::Text('{'), lex_from(s, i + 2))
        } else {
            match tag_scan(s, i + 2, s[i + 1]) {
                Some((t, e)) => {
                    proof {
                        lemma_tag_scan_bounds(s, i + 2, s[i + 1]);
                    }
                    cons(Lexeme::Tag(t), lex_from(s, e))
                },
                None => None,
            }
        }
    } else if s[i] == '}' {
        if i + 1 >= s.len() {
            Some(seq![])
        } else if s[i + 1] == '}' {
            cons(Lexeme::Text('}'), lex_from(s, i + 2))
        } else {
            lex_from(s, i + 2)
        }
    } else {
        cons(Lexeme::Text(s[i]), lex_from(s, i + 1))
    }
}

// ---------------------------------------------------------------------------
// The meaning: from lexemes to tokens
// ---------------------------------------------------------------------------

/// What a tag does.
pub enum TagMeaning {
    /// What came so far is the `down` phase; what follows repeats.
    Repeat,
    /// What came so far closes the current phase; what follows is the `up` phase.
    WaitUp,
    /// Text from here on is typed as Unicode (`true`) or as a key sequence (`false`).
    Unicode(bool),
    /// The tag stands for one token.
    Emit(TokenModel),
    /// The tag is not known and does nothing.
    Ignore,
}

/// The meaning of each tag name.
pub open spec fn tag_meaning(t: Seq<char>) -> TagMeaning {
    if t == "REPEAT"@ {
        TagMeaning::Repeat
    } else if t == "WAIT_UP"@ {
        TagMeaning::WaitUp
    } else if t == "+UNICODE"@ {
        TagMeaning::Unicode(true)
    } else if t == "-UNICODE"@ {
        TagMeaning::Unicode(false)
    } else if t == "+SHIFT"@ {
        TagMeaning::Emit(TokenModel::KeyDown(Key::Shift))
    } else if t == "-SHIFT"@ {
        TagMeaning::Emit(TokenModel::KeyUp(Key::Shift))
    } else if t == "+CTRL"@ {
        TagMeaning::Emit(TokenModel::KeyDown(Key::Control))
    } else if t == "-CTRL"@ {
        TagMeaning::Emit(TokenModel::KeyUp(Key::Control))
    } else if t == "+META"@ {
        TagMeaning::Emit(TokenModel::KeyDown(Key::Command))
    } else if t == "-META"@ {
        TagMeaning::Emit(TokenModel::KeyUp(Key::Command))
    } else if t == "+ALT"@ {
        TagMeaning::Emit(TokenModel::KeyDown(Key::Alt))
    } else if t == "-ALT"@ {
        TagMeaning::Emit(TokenModel::KeyUp(Key::Alt))
    } else if t == "+LEFT"@ {
        TagMeaning::Emit(TokenModel::MouseDown(Button::Left))
    } else if t == "-LEFT"@ {
        TagMeaning::Emit(TokenModel::MouseUp(Button::Left))
    } else if t == "LEFT"@ {
        TagMeaning::Emit(TokenModel::Click(Button::Left))
    } else if t == "+MIDDLE"@ {
        TagMeaning::Emit(TokenModel::MouseDown(Button::Middle))
    } else if t == "-MIDDLE"@ {
        TagMeaning::Emit(TokenModel::MouseUp(Button::Middle))
    } else if t == "MIDDLE"@ {
        TagMeaning::Emit(TokenModel::Click(Button::Middle))
    } else if t == "+RIGHT"@ {
        TagMeaning::Emit(TokenModel::MouseDown(Button::Right))
    } else if t == "-RIGHT"@ {
        TagMeaning::Emit(TokenModel::MouseUp(Button::Right))
    } else if t == "RIGHT"@ {
        TagMeaning::Emit(TokenModel::Click(Button::Right))
    } else if t == "SCROLL_UP"@ {
        TagMeaning::Emit(TokenModel::Click(Button::ScrollUp))
    } else if t == "SCROLL_DOWN"@ {
        TagMeaning::Emit(TokenModel::Click(Button::ScrollDown))
    } else if t == "SCROLL_LEFT"@ {
        TagMeaning::Emit(TokenModel::Click(Button::ScrollLeft))
    } else if t == "SCROLL_RIGHT"@ {
        TagMeaning::Emit(TokenModel::Click(Button::ScrollRight))
    } else {
        TagMeaning::Ignore
    }
}

/// The state of the tokenizer between two lexemes.
pub struct Machine {
    pub unicode: bool,
    pub repeat_seen: bool,
    pub wait_up_seen: bool,
    pub down: Seq<TokenModel>,
    pub repeat: Seq<TokenModel>,
    /// Tokens of the phase being read.
    pub pending: Seq<TokenModel>,
    /// Text read since the last tag.
    pub buffer: Seq<char>,
}

/// The state before any input.
pub open spec fn start() -> Machine {
    Machine {
        unicode: false,
        repeat_seen: false,
        wait_up_seen: false,
        down: seq![],
        repeat: seq![],
        pending: seq![],
        buffer: seq![],
    }
}

/// The pending tokens once the text buffer is turned into a token: none is
/// added for an empty buffer.
pub open spec fn flush_tokens(pending: Seq<TokenModel>, buffer: Seq<char>, unicode: bool) -> Seq<
    TokenModel,
> {
    if buffer.len() == 0 {
        pending
    } else if unicode {
        pending.push(TokenModel::Unicode(buffer))
    } else {
        pending.push(TokenModel::Sequence(buffer))
    }
}

/// The state once its text buffer is turned into a token.
pub open spec fn flushed(m: Machine) -> Machine {
    Machine { pending: flush_tokens(m.pending, m.buffer, m.unicode), buffer: seq![], ..m }
}

/// The state after a tag (its text already flushed).
pub open spec fn apply_tag(m: Machine, t: Seq<char>) -> Machine {
    match tag_meaning(t) {
        TagMeaning::Repeat => Machine { repeat_seen: true, down: m.pending, pending: seq![], ..m },
        TagMeaning::WaitUp => if m.repeat_seen {
            Machine { wait_up_seen: true, repeat: m.pending, pending: seq![], ..m }
        } else {
            Machine { wait_up_seen: true, down: m.pending, pending: seq![], ..m }
        },
        TagMeaning::Unicode(b) => Machine { unicode: b, ..m },
        TagMeaning::Emit(tok) => Machine { pending: m.pending.push(tok), ..m },
        TagMeaning::Ignore => m,
    }
}

/// The state after one more lexeme.
pub open spec fn step(m: Machine, x: Lexeme) -> Machine {
    match x {
        Lexeme::Text(c) => Machine { buffer: m.buffer.push(c), ..m },
        Lexeme::Tag(t) => apply_tag(flushed(m), t),
    }
}

/// The state after a sequence of lexemes.
pub open spec fn interpret(l: Seq<Lexeme>) -> Machine
    decreases l.len(),
{
    if l.len() == 0 {
        start()
    } else {
        step(interpret(l.drop_last()), l.last())
    }
}

/// The result once the input ends: the last text is flushed and the pending
/// tokens go to the phase that was being read.
pub open spec fn finish(m: Machine) -> StateTokenModel {
    let f = flushed(m);
    if f.wait_up_seen {
        StateTokenModel { down: f.down, repeat: f.repeat, up: f.pending }
    } else if f.repeat_seen {
        StateTokenModel { down: f.down, repeat: f.pending, up: seq![] }
    } else {
        StateTokenModel { down: f.pending, repeat: f.repeat, up: seq![] }
    }
}

/// The inputs on which the tokenizer ends: every tag in them closes.
pub open spec fn tokenizes(s: Seq<char>) -> bool {
    lex_from(s, 0) is Some
}

/// What the tokenizer gives for an input on which it ends.
pub open spec fn tokenized(s: Seq<char>) -> StateTokenModel {
    finish(interpret(lex_from(s, 0).unwrap()))
}

// ---------------------------------------------------------------------------
// Executable code
// ---------------------------------------------------------------------------

pub assume_specification[ String::push ](string: &mut String, ch: char)
    ensures
        final(string)@ == old(string)@.push(ch),
;

/// A tag's meaning, as the tokenizer acts on it.
pub enum Directive {
    Repeat,
    WaitUp,
    Unicode(bool),
    Emit(Token),
    Ignore,
}

impl View for Directive {
    type V = TagMeaning;

    open spec fn view(&self) -> TagMeaning {
        match self {
            Directive::Repeat => TagMeaning::Repeat,
            Directive::WaitUp => TagMeaning::WaitUp,
            Directive::Unicode(b) => TagMeaning::Unicode(*b),
            Directive::Emit(t) => TagMeaning::Emit(t@),
            Directive::Ignore => TagMeaning::Ignore,
        }
    }
}

/// The characters of a string, in order.
pub fn collect_chars(input: &String) -> (out: Vec<char>)
    ensures
        out@ == input@,
{
    let mut out: Vec<char> = Vec::new();
    let s = input.as_str();
    for c in it: s.chars()
        invariant
            out@ == it.seq().take(it.index() as int),
    {
        out.push(c);
    }
    out
}

/// Whether the characters of `v` are those of `name`.
fn same_chars(v: &Vec<char>, name: &str) -> (r: bool)
    ensures
        r == (v@ == name@),
{
    let n = name.unicode_len();
    if v.len() != n {
        return false;
    }
    let mut i: usize = 0;
    while i < n
        invariant
            n == name@.len(),
            v@.len() == n,
            i <= n,
            forall|k: int| 0 <= k < i ==> v@[k] == name@[k],
        decreases n - i,
    {
        if v[i] != name.get_char(i) {
            return false;
        }
        i += 1;
    }
    assert(v@ =~= name@);
    true
}

/// The meaning of the tag whose characters are `tag`.
fn directive_of(tag: &Vec<char>) -> (d: Directive)
    ensures
        d@ == tag_meaning(tag@),
{
    if same_chars(tag, "REPEAT") {
        Directive::Repeat
    } else if same_chars(tag, "WAIT_UP") {
        Directive::WaitUp
    } else if same_chars(tag, "+UNICODE") {
        Directive::Unicode(true)
    } else if same_chars(tag, "-UNICODE") {
        Directive::Unicode(false)
    } else if same_chars(tag, "+SHIFT") {
        Directive::Emit(Token::KeyDown(Key::Shift))
    } else if same_chars(tag, "-SHIFT") {
        Directive::Emit(Token::KeyUp(Key::Shift))
    } else if same_chars(tag, "+CTRL") {
        Directive::Emit(Token::KeyDown(Key::Control))
    } else if same_chars(tag, "-CTRL") {
        Directive::Emit(Token::KeyUp(Key::Control))
    } else if same_chars(tag, "+META") {
        Directive::Emit(Token::KeyDown(Key::Command))
    } else if same_chars(tag, "-META") {
        Directive::Emit(Token::KeyUp(Key::Command))
    } else if same_chars(tag, "+ALT") {
        Directive::Emit(Token::KeyDown(Key::Alt))
    } else if same_chars(tag, "-ALT") {
        Directive::Emit(Token::KeyUp(Key::Alt))
    } else if same_chars(tag, "+LEFT") {
        Directive::Emit(Token::MouseDown(Button::Left))
    } else if same_chars(tag, "-LEFT") {
        Directive::Emit(Token::MouseUp(Button::Left))
    } else if same_chars(tag, "LEFT") {
        Directive::Emit(Token::Click(Button::Left))
    } else if same_chars(tag, "+MIDDLE") {
        Directive::Emit(Token::MouseDown(Button::Middle))
    } else if same_chars(tag, "-MIDDLE") {
        Directive::Emit(Token::MouseUp(Button::Middle))
    } else if same_chars(tag, "MIDDLE") {
        Directive::Emit(Token::Click(Button::Middle))
    } else if same_chars(tag, "+RIGHT") {
        Directive::Emit(Token::MouseDown(Button::Right))
    } else if same_chars(tag, "-RIGHT") {
        Directive::Emit(Token::MouseUp(Button::Right))
    } else if same_chars(tag, "RIGHT") {
        Directive::Emit(Token::Click(Button::Right))
    } else if same_chars(tag, "SCROLL_UP") {
        Directive::Emit(Token::Click(Button::ScrollUp))
    } else if same_chars(tag, "SCROLL_DOWN") {
        Directive::Emit(Token::Click(Button::ScrollDown))
    } else if same_chars(tag, "SCROLL_LEFT") {
        Directive::Emit(Token::Click(Button::ScrollLeft))
    } else if same_chars(tag, "SCROLL_RIGHT") {
        Directive::Emit(Token::Click(Button::ScrollRight))
    } else {
        Directive::Ignore
    }
}

/// Reads a tag whose first character is `first`, from position `start` on:
/// gives its characters and the position after its closing brace.
fn scan_tag(chars: &Vec<char>, start: usize, first: char) -> (r: (Vec<char>, usize))
    requires
        tag_scan(chars@, start as int, first) is Some,
    ensures
        tag_scan(chars@, start as int, first) == Some((r.0@, r.1 as int)),
{
    let ghost s = chars@;
    let n = chars.len();
    let mut tag: Vec<char> = Vec::new();
    let mut c = first;
    let mut j = start;
    loop
        invariant
            s == chars@,
            n == s.len(),
            j <= n,
            tag_scan(s, j as int, c) matches Some((t, e)) && tag_scan(s, start as int, first)
                == Some((tag@ + t, e)),
        decreases n - j,
    {
        let ghost old_tag = tag@;
        assert(j < n);
        tag.push(c);
        let x = chars[j];
        if x == '{' {
            if j + 1 < n && chars[j + 1] == '{' {
                j = j + 2;
                c = '{';
            } else {
                j = j + 1;
            }
        } else if x == '}' {
            if j + 1 < n && chars[j + 1] == '}' {
                j = j + 2;
                c = '}';
            } else {
                assert(tag@ =~= old_tag + seq![tag@.last()]);
                return (tag, j + 1);
            }
        } else {
            c = x;
            j = j + 1;
        }
        proof {
            let (t2, e2) = tag_scan(s, j as int, c).unwrap();
            assert(old_tag + (seq![tag@.last()] + t2) =~= tag@ + t2);
        }
    }
}

/// Turns the text read so far into a token (a [`Token::Unicode`] in Unicode
/// mode, a [`Token::Sequence`] otherwise) and empties the buffer; nothing is
/// added for an empty buffer.
pub fn flush(tokens: &mut Vec<Token>, buffer: &mut String, is_unicode: bool)
    ensures
        tokens_model(final(tokens)@) == flush_tokens(tokens_model(old(tokens)@), old(buffer)@, is_unicode),
        final(buffer)@ == Seq::<char>::empty(),
{
    if !buffer.as_str().is_empty() {
        let ghost before = tokens@;
        let t = if is_unicode {
            Token::Unicode(buffer.clone())
        } else {
            Token::Sequence(buffer.clone())
        };
        tokens.push(t);
        assert(tokens_model(tokens@) =~= tokens_model(before).push(t@));
    }
    *buffer = String::new();
}

/// One more lexeme read: it joins those already read, and the state steps over it.
proof fn lemma_advance(s: Seq<char>, done: Seq<Lexeme>, i: int, x: Lexeme, k: int) -> (next: Seq<
    Lexeme,
>)
    requires
        lex_from(s, 0) == Some(done + lex_from(s, i).unwrap()),
        lex_from(s, i) == cons(x, lex_from(s, k)),
        lex_from(s, k) is Some,
    ensures
        next == done.push(x),
        lex_from(s, 0) == Some(next + lex_from(s, k).unwrap()),
        interpret(next) == step(interpret(done), x),
{
    let rest = lex_from(s, k).unwrap();
    assert(done + (seq![x] + rest) =~= done.push(x) + rest);
    assert(done.push(x).drop_last() =~= done);
    done.push(x)
}

/// The tokenizer's state as a [`Machine`].
pub open spec fn machine(
    unicode: bool,
    repeat_seen: bool,
    wait_up_seen: bool,
    st: StateToken,
    pending: Seq<Token>,
    buffer: Seq<char>,
) -> Machine {
    Machine {
        unicode,
        repeat_seen,
        wait_up_seen,
        down: tokens_model(st.down@),
        repeat: tokens_model(st.repeat@),
        pending: tokens_model(pending),
        buffer,
    }
}

/// Reads a macro description into its phases.
///
/// Text is typed as a key sequence, or as Unicode between `{+UNICODE}` and
/// `{-UNICODE}`; `{{` and `}}` stand for braces. Tags such as `{+SHIFT}`,
/// `{-CTRL}` or `{LEFT}` press, release or click keys and buttons. `{REPEAT}`
/// ends the `down` phase and starts the `repeat` phase; `{WAIT_UP}` ends the
/// current phase and starts the `up` phase.
///
/// The input must close every tag it opens: on one that does not, reading never
/// ends.
pub fn tokenize(input: String) -> (state_token: StateToken)
    requires
        tokenizes(input@),
    ensures
        state_token@ == tokenized(input@),
{
    let chars = collect_chars(&input);
    let ghost s = chars@;
    let n = chars.len();
    let mut is_unicode = false;
    let mut has_repeat = false;
    let mut has_wait_up = false;
    let mut state_token = StateToken { down: Vec::new(), repeat: Vec::new(), up: Vec::new() };
    let mut token_vec: Vec<Token> = Vec::new();
    let mut buffer = String::new();
    let ghost mut done: Seq<Lexeme> = seq![];
    let mut i: usize = 0;
    proof {
        assert(done + lex_from(s, 0).unwrap() =~= lex_from(s, 0).unwrap());
        assert(tokens_model(seq![]) =~= Seq::<TokenModel>::empty());
    }
    while i < n
        invariant
            s == chars@,
            n == s.len(),
            i <= n,
            lex_from(s, i as int) is Some,
            lex_from(s, 0) == Some(done + lex_from(s, i as int).unwrap()),
            machine(is_unicode, has_repeat, has_wait_up, state_token, token_vec@, buffer@)
                == interpret(done),
            state_token.up@.len() == 0,
        decreases n - i,
    {
        let c = chars[i];
        if c == '{' {
            if i + 1 < n {
                let c1 = chars[i + 1];
                if c1 == '{' {
                    buffer.push('{');
                    proof {
                        done = lemma_advance(s, done, i as int, Lexeme::Text('{'), i + 2);
                    }
                    i = i + 2;
                } else {
                    flush(&mut token_vec, &mut buffer, is_unicode);
                    let (tag, next) = scan_tag(&chars, i + 2, c1);
                    proof {
                        lemma_tag_scan_bounds(s, i + 2, c1);
                    }
                    let d = directive_of(&tag);
                    match d {
                        Directive::Repeat => {
                            has_repeat = true;
                            state_token.down = token_vec;
                            token_vec = Vec::new();
                        },
                        Directive::WaitUp => {
                            has_wait_up = true;
                            if has_repeat {
                                state_token.repeat = token_vec;
                            } else {
                                state_token.down = token_vec;
                            }
                            token_vec = Vec::new();
                        },
                        Directive::Unicode(b) => {
                            is_unicode = b;
                        },
                        Directive::Emit(t) => {
                            let ghost before = token_vec@;
                            token_vec.push(t);
                            assert(tokens_model(token_vec@) =~= tokens_model(before).push(t@));
                        },
                        Directive::Ignore => {},
                    }
                    proof {
                        assert(tokens_model(seq![]) =~= Seq::<TokenModel>::empty());
                        done = lemma_advance(s, done, i as int, Lexeme::Tag(tag@), next as int);
                    }
                    i = next;
                }
            } else {
                assert(lex_from(s, i as int) == Some(Seq::<Lexeme>::empty()));
                assert(done + seq![] =~= done);
                i = i + 1;
            }
        } else if c == '}' {
            if i + 1 < n {
                if chars[i + 1] == '}' {
                    buffer.push('}');
                    proof {
                        done = lemma_advance(s, done, i as int, Lexeme::Text('}'), i + 2);
                    }
                } else {
                    assert(lex_from(s, i as int) == lex_from(s, i + 2));
                }
                i = i + 2;
            } else {
                assert(lex_from(s, i as int) == Some(Seq::<Lexeme>::empty()));
                assert(done + seq![] =~= done);
                i = i + 1;
            }
        } else {
            buffer.push(c);
            proof {
                done = lemma_advance(s, done, i as int, Lexeme::Text(c), i + 1);
            }
            i = i + 1;
        }
    }
    proof {
        assert(done =~= lex_from(s, 0).unwrap());
    }
    flush(&mut token_vec, &mut buffer, is_unicode);
    if has_wait_up {
        state_token.up = token_vec;
    } else if has_repeat {
        state_token.repeat = token_vec;
    } else {
        state_token.down = token_vec;
    }
    assert(state_token.up@.len() == 0 ==> tokens_model(state_token.up@) =~= seq![]);
    state_token
}

/// Where a tag scan ends: the position after the closing brace, or `None` when
/// the tag never closes.
pub open spec fn tag_end(s: Seq<char>, j: int, c: char) -> Option<int> {
    match tag_scan(s, j, c) {
        Some((_t, e)) => Some(e),
        None => None,
    }
}

/// Finds where a tag whose current character is `first` closes, reading from
/// position `start` on.
fn find_tag_end(chars: &Vec<char>, start: usize, first: char) -> (r: Option<usize>)
    ensures
        r matches Some(e) ==> tag_end(chars@, start as int, first) == Some(e as int),
        r is None ==> tag_end(chars@, start as int, first) is None,
{
    let ghost s = chars@;
    let n = chars.len();
    let mut c = first;
    let mut j = start;
    while j < n
        invariant
            s == chars@,
            n == s.len(),
            tag_end(s, start as int, first) == tag_end(s, j as int, c),
        decreases n - j,
    {
        let x = chars[j];
        if x == '{' {
            if j + 1 < n && chars[j + 1] == '{' {
                j = j + 2;
                c = '{';
            } else {
                j = j + 1;
            }
        } else if x == '}' {
            if j + 1 < n && chars[j + 1] == '}' {
                j = j + 2;
                c = '}';
            } else {
                return Some(j + 1);
            }
        } else {
            c = x;
            j = j + 1;
        }
    }
    None
}

/// Whether every tag that the input opens also closes: exactly the inputs that
/// [`tokenize`] reads to the end.
pub fn closes_every_tag(input: &String) -> (r: bool)
    ensures
        r == tokenizes(input@),
{
    let chars = collect_chars(input);
    let ghost s = chars@;
    let n = chars.len();
    let mut i: usize = 0;
    while i < n
        invariant
            s == chars@,
            s == input@,
            n == s.len(),
            i <= n,
            (lex_from(s, 0) is Some) == (lex_from(s, i as int) is Some),
        decreases n - i,
    {
        let c = chars[i];
        if c == '{' {
            if i + 1 < n {
                let c1 = chars[i + 1];
                if c1 == '{' {
                    i = i + 2;
                } else {
                    match find_tag_end(&chars, i + 2, c1) {
                        Some(e) => {
                            proof {
                                lemma_tag_scan_bounds(s, i + 2, c1);
                            }
                            i = e;
                        },
                        None => {
                            return false;
                        },
                    }
                }
            } else {
                i = i + 1;
            }
        } else if c == '}' {
            if i + 1 < n {
                i = i + 2;
            } else {
                i = i + 1;
            }
        } else {
            i = i + 1;
        }
    }
    true
}

// ---------------------------------------------------------------------------
// Laws
// ---------------------------------------------------------------------------

/// No character of `s` is a brace.
pub open spec fn is_plain(s: Seq<char>) -> bool {
    forall|k: int| 0 <= k < s.len() ==> s[k] != '{' && s[k] != '}'
}

/// The character at `j` as a text lexeme.
pub open spec fn text_at(s: Seq<char>, j: int) -> Lexeme {
    Lexeme::Text(s[j])
}

/// The characters of `s` from `i` on, each as a text lexeme.
pub open spec fn texts_from(s: Seq<char>, i: int) -> Seq<Lexeme> {
    Seq::new((s.len() - i) as nat, |k: int| text_at(s, i + k))
}

proof fn lemma_plain_lex(s: Seq<char>, i: int)
    requires
        is_plain(s),
        0 <= i <= s.len(),
    ensures
        lex_from(s, i) == Some(texts_from(s, i)),
    decreases s.len() - i,
{
    if i < s.len() {
        lemma_plain_lex(s, i + 1);
        assert(seq![text_at(s, i)] + texts_from(s, i + 1) =~= texts_from(s, i));
    } else {
        assert(texts_from(s, i) =~= Seq::<Lexeme>::empty());
    }
}

proof fn lemma_plain_interpret(s: Seq<char>, n: int)
    requires
        0 <= n <= s.len(),
    ensures
        interpret(texts_from(s.take(n), 0)) == (Machine { buffer: s.take(n), ..start() }),
    decreases n,
{
    if n > 0 {
        lemma_plain_interpret(s, n - 1);
        assert(texts_from(s.take(n), 0).drop_last() =~= texts_from(s.take(n - 1), 0));
        assert(s.take(n - 1).push(s[n - 1]) =~= s.take(n));
    } else {
        assert(texts_from(s.take(n), 0) =~= Seq::<Lexeme>::empty());
        assert(s.take(0) =~= Seq::<char>::empty());
    }
}

/// Text without braces is read to its end and typed as one key sequence that
/// starts the macro; nothing repeats and nothing is played on release.
pub proof fn law_plain_text_is_one_sequence(s: Seq<char>)
    requires
        is_plain(s),
        s.len() > 0,
    ensures
        tokenizes(s),
        tokenized(s) == (StateTokenModel {
            down: seq![TokenModel::Sequence(s)],
            repeat: seq![],
            up: seq![],
        }),
{
    lemma_plain_lex(s, 0);
    lemma_plain_interpret(s, s.len() as int);
    assert(s.take(s.len() as int) =~= s);
    assert(texts_from(s.take(s.len() as int), 0) =~= texts_from(s, 0));
    assert(seq![].push(TokenModel::Sequence(s)) =~= seq![TokenModel::Sequence(s)]);
}

/// Some tag among the lexemes starts a new phase.
pub open spec fn has_phase_tag(l: Seq<Lexeme>) -> bool {
    exists|k: int|
        0 <= k < l.len() && (#[trigger] l[k] matches Lexeme::Tag(t) && (tag_meaning(t) is Repeat
            || tag_meaning(t) is WaitUp))
}

proof fn lemma_no_phase_tag(l: Seq<Lexeme>)
    requires
        !has_phase_tag(l),
    ensures
        !interpret(l).repeat_seen,
        !interpret(l).wait_up_seen,
        interpret(l).repeat == Seq::<TokenModel>::empty(),
    decreases l.len(),
{
    if l.len() > 0 {
        assert(!has_phase_tag(l.drop_last())) by {
            if has_phase_tag(l.drop_last()) {
                let k = choose|k: int|
                    0 <= k < l.drop_last().len() && (#[trigger] l.drop_last()[k] matches Lexeme::Tag(
                        t,
                    ) && (tag_meaning(t) is Repeat || tag_meaning(t) is WaitUp));
                assert(l[k] == l.drop_last()[k]);
            }
        }
        lemma_no_phase_tag(l.drop_last());
        assert(l[l.len() - 1] == l.last());
    }
}

/// A macro without `{REPEAT}` and `{WAIT_UP}` is played only when it starts: its
/// repeat and release phases are empty.
pub proof fn law_without_phase_tags_only_down(s: Seq<char>)
    requires
        tokenizes(s),
        !has_phase_tag(lex_from(s, 0).unwrap()),
    ensures
        tokenized(s).repeat == Seq::<TokenModel>::empty(),
        tokenized(s).up == Seq::<TokenModel>::empty(),
{
    lemma_no_phase_tag(lex_from(s, 0).unwrap());
}

/// A token that types text types some: it is not empty.
pub open spec fn text_nonempty(t: TokenModel) -> bool {
    match t {
        TokenModel::Sequence(s) => s.len() > 0,
        TokenModel::Unicode(s) => s.len() > 0,
        _ => true,
    }
}

/// Every token of a sequence types some text, if it types any.
pub open spec fn all_text_nonempty(v: Seq<TokenModel>) -> bool {
    forall|k: int| 0 <= k < v.len() ==> text_nonempty(#[trigger] v[k])
}

proof fn lemma_push_nonempty(v: Seq<TokenModel>, t: TokenModel)
    requires
        all_text_nonempty(v),
        text_nonempty(t),
    ensures
        all_text_nonempty(v.push(t)),
{
    assert forall|k: int| 0 <= k < v.push(t).len() implies text_nonempty(#[trigger] v.push(t)[k]) by {
        if k < v.len() {
            assert(v.push(t)[k] == v[k]);
        }
    }
}

proof fn lemma_flushed_nonempty(m: Machine)
    requires
        all_text_nonempty(m.pending),
    ensures
        all_text_nonempty(flushed(m).pending),
{
    if m.buffer.len() > 0 {
        if m.unicode {
            lemma_push_nonempty(m.pending, TokenModel::Unicode(m.buffer));
        } else {
            lemma_push_nonempty(m.pending, TokenModel::Sequence(m.buffer));
        }
    }
}

proof fn lemma_interpret_nonempty(l: Seq<Lexeme>)
    ensures
        all_text_nonempty(interpret(l).down),
        all_text_nonempty(interpret(l).repeat),
        all_text_nonempty(interpret(l).pending),
    decreases l.len(),
{
    if l.len() > 0 {
        lemma_interpret_nonempty(l.drop_last());
        let m = interpret(l.drop_last());
        match l.last() {
            Lexeme::Text(c) => {},
            Lexeme::Tag(t) => {
                lemma_flushed_nonempty(m);
                let f = flushed(m);
                match tag_meaning(t) {
                    TagMeaning::Emit(tok) => {
                        lemma_push_nonempty(f.pending, tok);
                    },
                    _ => {},
                }
            },
        }
    }
}

/// The tokenizer never gives a key sequence or a Unicode text that is empty.
pub proof fn law_text_tokens_are_nonempty(s: Seq<char>)
    requires
        tokenizes(s),
    ensures
        all_text_nonempty(tokenized(s).down),
        all_text_nonempty(tokenized(s).repeat),
        all_text_nonempty(tokenized(s).up),
{
    let m = interpret(lex_from(s, 0).unwrap());
    lemma_interpret_nonempty(lex_from(s, 0).unwrap());
    lemma_flushed_nonempty(m);
}

/// A tag name written between braces.
pub open spec fn braced(w: Seq<char>) -> Seq<char> {
    seq!['{'] + w + seq!['}']
}

/// Plain text from `i` up to `b` is read character by character, and reading
/// goes on at `b`.
proof fn lemma_lex_plain_run(x: Seq<char>, i: int, b: int)
    requires
        0 <= i <= b <= x.len(),
        forall|k: int| i <= k < b ==> x[k] != '{' && x[k] != '}',
        lex_from(x, b) is Some,
    ensures
        lex_from(x, i) == Some(texts_from(x.subrange(i, b), 0) + lex_from(x, b).unwrap()),
    decreases b - i,
{
    if i < b {
        lemma_lex_plain_run(x, i + 1, b);
        let rest = lex_from(x, b).unwrap();
        let whole = texts_from(x.subrange(i, b), 0);
        let head = seq![text_at(x, i)] + texts_from(x.subrange(i + 1, b), 0);
        assert(head.len() == whole.len());
        assert forall|k: int| 0 <= k < whole.len() implies head[k] == whole[k] by {
            assert(whole[k] == text_at(x.subrange(i, b), k));
            if k > 0 {
                assert(head[k] == texts_from(x.subrange(i + 1, b), 0)[k - 1]);
                assert(x.subrange(i + 1, b)[k - 1] == x.subrange(i, b)[k]);
            }
        }
        assert(head =~= whole);
        assert(seq![text_at(x, i)] + (texts_from(x.subrange(i + 1, b), 0) + rest)
            =~= texts_from(x.subrange(i, b), 0) + rest);
    } else {
        assert(texts_from(x.subrange(i, b), 0) =~= Seq::<Lexeme>::empty());
        assert(Seq::<Lexeme>::empty() + lex_from(x, b).unwrap() =~= lex_from(x, b).unwrap());
    }
}

/// The characters of a brace-free tag name `w`, written at `j + 1` and closed by
/// a single `}`, are scanned from the `m`-th on.
proof fn lemma_tag_scan_word(x: Seq<char>, j: int, w: Seq<char>, m: int)
    requires
        0 <= j,
        1 <= m <= w.len(),
        j + w.len() + 2 <= x.len(),
        is_plain(w),
        forall|k: int| 0 <= k < w.len() ==> x[j + 1 + k] == w[k],
        x[j + w.len() + 1] == '}',
        j + w.len() + 2 == x.len() || x[j + w.len() + 2] != '}',
    ensures
        tag_scan(x, j + 1 + m, w[m - 1]) == Some((w.skip(m - 1), j + w.len() + 2)),
    decreases w.len() - m,
{
    let k = j + 1 + m;
    if m == w.len() {
        assert(w.skip(m - 1) =~= seq![w[m - 1]]);
    } else {
        assert(x[k] == w[m]);
        lemma_tag_scan_word(x, j, w, m + 1);
        assert(seq![w[m - 1]] + w.skip(m) =~= w.skip(m - 1));
    }
}

/// A brace-free tag name between single braces at `j` is read as that tag.
proof fn lemma_lex_tag(x: Seq<char>, j: int, w: Seq<char>)
    requires
        0 <= j,
        1 <= w.len(),
        j + w.len() + 2 <= x.len(),
        is_plain(w),
        x[j] == '{',
        forall|k: int| 0 <= k < w.len() ==> x[j + 1 + k] == w[k],
        x[j + w.len() + 1] == '}',
        j + w.len() + 2 == x.len() || x[j + w.len() + 2] != '}',
    ensures
        lex_from(x, j) == cons(Lexeme::Tag(w), lex_from(x, j + w.len() + 2)),
{
    assert(x[j + 1] == w[0]);
    lemma_tag_scan_word(x, j, w, 1);
    assert(w.skip(0) =~= w);
}

/// Text read after some lexemes joins the text buffer, and nothing else changes.
proof fn lemma_interpret_texts(p: Seq<Lexeme>, t: Seq<char>)
    ensures
        interpret(p + texts_from(t, 0)) == (Machine {
            buffer: interpret(p).buffer + t,
            ..interpret(p)
        }),
    decreases t.len(),
{
    if t.len() == 0 {
        assert(p + texts_from(t, 0) =~= p);
        assert(interpret(p).buffer + t =~= interpret(p).buffer);
    } else {
        let t0 = t.drop_last();
        lemma_interpret_texts(p, t0);
        let l = p + texts_from(t, 0);
        assert(l.drop_last() =~= p + texts_from(t0, 0));
        assert(l.last() == Lexeme::Text(t.last()));
        assert((interpret(p).buffer + t0).push(t.last()) =~= interpret(p).buffer + t);
    }
}

/// Text is typed in the mode in force when it was read: plain text before
/// `{+UNICODE}` is one key sequence, and plain text between `{+UNICODE}` and
/// `{-UNICODE}` is one Unicode text, in that order.
pub proof fn law_text_keeps_the_mode_it_was_read_in(s: Seq<char>, u: Seq<char>)
    requires
        is_plain(s),
        is_plain(u),
        s.len() > 0,
        u.len() > 0,
    ensures
        tokenizes(s + braced("+UNICODE"@) + u + braced("-UNICODE"@)),
        tokenized(s + braced("+UNICODE"@) + u + braced("-UNICODE"@)) == (StateTokenModel {
            down: seq![TokenModel::Sequence(s), TokenModel::Unicode(u)],
            repeat: seq![],
            up: seq![],
        }),
{
    reveal_strlit("REPEAT");
    reveal_strlit("WAIT_UP");
    reveal_strlit("+UNICODE");
    reveal_strlit("-UNICODE");
    let w1 = "+UNICODE"@;
    let w2 = "-UNICODE"@;
    let x = s + braced(w1) + u + braced(w2);
    let a = s.len() as int;
    let c = a + 10;
    let b = c + u.len();
    assert(x.len() == b + 10);
    assert forall|k: int| 0 <= k < a implies x[k] == s[k] by {}
    assert forall|k: int| 0 <= k < u.len() implies x[c + k] == u[k] by {}
    assert forall|k: int| 0 <= k < 8 implies x[a + 1 + k] == w1[k] by {}
    assert forall|k: int| 0 <= k < 8 implies x[b + 1 + k] == w2[k] by {}
    assert(x[a] == '{');
    assert(x[a + 9] == '}');
    assert(x[c] == u[0]);
    assert(x[b] == '{');
    assert(x[b + 9] == '}');
    assert(is_plain(w1));
    assert(is_plain(w2));
    // Lexing, from the end back to the start.
    assert(lex_from(x, b + 10) == Some(Seq::<Lexeme>::empty()));
    lemma_lex_tag(x, b, w2);
    let tail2 = seq![Lexeme::Tag(w2)];
    assert(lex_from(x, b) == Some(tail2)) by {
        assert(seq![Lexeme::Tag(w2)] + Seq::<Lexeme>::empty() =~= tail2);
    }
    lemma_lex_plain_run(x, c, b);
    assert(x.subrange(c, b) =~= u);
    let tail1 = texts_from(u, 0) + tail2;
    lemma_lex_tag(x, a, w1);
    lemma_lex_plain_run(x, 0, a);
    assert(x.subrange(0, a) =~= s);
    let l = texts_from(s, 0) + (seq![Lexeme::Tag(w1)] + tail1);
    assert(lex_from(x, 0) == Some(l));
    // Reading the lexemes.
    let l0 = texts_from(s, 0);
    let l1 = l0.push(Lexeme::Tag(w1));
    let l2 = l1 + texts_from(u, 0);
    let l3 = l2.push(Lexeme::Tag(w2));
    assert(l =~= l3);
    lemma_interpret_texts(Seq::<Lexeme>::empty(), s);
    assert(Seq::<Lexeme>::empty() + l0 =~= l0);
    assert(Seq::<char>::empty() + s =~= s);
    let m0 = interpret(l0);
    assert(m0 == Machine { buffer: s, ..start() });
    assert(l1.drop_last() =~= l0);
    assert(tag_meaning(w1) == TagMeaning::Unicode(true));
    let m1 = interpret(l1);
    assert(m1 == Machine {
        unicode: true,
        pending: seq![TokenModel::Sequence(s)],
        buffer: seq![],
        ..start()
    }) by {
        assert(seq![].push(TokenModel::Sequence(s)) =~= seq![TokenModel::Sequence(s)]);
    }
    lemma_interpret_texts(l1, u);
    assert(Seq::<char>::empty() + u =~= u);
    let m2 = interpret(l2);
    assert(m2 == Machine { buffer: u, ..m1 });
    assert(l3.drop_last() =~= l2);
    assert(tag_meaning(w2) == TagMeaning::Unicode(false));
    let m3 = interpret(l3);
    assert(m3.pending =~= seq![TokenModel::Sequence(s), TokenModel::Unicode(u)]);
    assert(m3.buffer =~= Seq::<char>::empty());
    assert(!m3.repeat_seen && !m3.wait_up_seen);
}

} // verus!
