# gap_rules

A verified parser for the CSS gap decoration grammars:

```
<gap-rule-list>        = <gap-rule-or-repeat>#
<gap-auto-rule-list>   = <gap-rule-or-repeat>#? , <gap-auto-repeat-rule> , <gap-rule-or-repeat>#?
<gap-rule-or-repeat>   = <gap-rule> | <gap-repeat-rule>
<gap-repeat-rule>      = repeat( <integer [1,∞]> | auto , <gap-rule># )
<gap-auto-repeat-rule> = repeat( auto , <gap-rule># )
<gap-rule>             = <line-width> || <line-style> || <color>
```

Source text is split into tokens by `css_lexer`; everything after that is
verified with Verus. Each node type states its grammar as a spec function, and
its `parse` is proved to compute exactly that. Proved laws: a successful parse
consumes at least one token; whatever parses also peeks; writing a parsed node
back out gives exactly the tokens it was read from, which put in source order
are those tokens in order; a parsed node's span is the source range of those
tokens; a comma-separated list has one more item than commas, and writes back
its tokens in order wherever its items do; a gap auto rule list holds exactly
one auto repeat, and reads the same as a gap rule list.

Keywords are matched on what a token stands for: escapes are replaced by the
characters they stand for, and ASCII case is ignored. Source texts must lie
within the lexer's own limits (`within_lexer_limits`, checked by
`check_lexer_limits`).

Layout: `src/` is the verified library, `tests/` its tests, and `app/` holds
serializable (serde) copies of the node types.
