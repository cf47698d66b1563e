use compiler::lexer::tokenize;
use compiler::parser::parse;

// where the diagnostics of a source text point, in order
fn places(source: &str) -> Vec<String> {
  let errors = match parse(tokenize(source).unwrap()) {
    Ok(..) => vec![],
    Err(errors) => errors,
  };
  errors
    .iter()
    .map(|error| {
      let rest = error.strip_prefix("Error at ").unwrap();
      rest[..rest.find(": ").unwrap()].to_string()
    })
    .collect()
}

fn expect_places(source: &str, expected: &[&str]) {
  let found = places(source);
  let wanted: Vec<String> = expected.iter().map(|place| place.to_string()).collect();
  assert_eq!(wanted, found, "in {:?}", source);
}

#[test]
fn recovery_reports_each_fault_in_its_place_1() {
  expect_places("fn  f ( elif  x : string  )\t", &["1:9"]);
  expect_places("true f ", &["1:1"]);
  expect_places("fn f ( a  : int\t, b\n: bool )  : int {\nlet\nx :\tint\t=\t1  +\n2\n* ( 3\t- )  ;  a  =\tb\n;\nfoo\t(  a ,  1  , \"s\"\n)\t;\n}\n", &["6:12"]);
  expect_places(";\nf ", &["1:1"]);
  expect_places("fn f (\n)\n{  if\t( a  )  {  if\t( b ) {  }  else  {\t} }\nelif\t(\t==\td ) {\nfor (\na\n= 1 ;\t; a =\n2 ) {\t} } }  ", &["4:14"]);
  expect_places("", &["1:1"]);
  expect_places("fn f\n(\t) { for  ( let\ti\n: int  = 0 ; i <  10  ; i\nreturn\ti\t+\n1\n)\t{ foo (\ti ) ; } } ", &["4:1", "4:1", "6:25"]);
  expect_places("fn\nf ( ) { for  ( let i :\nint = 0  ", &["3:7", "3:7", "3:7", "3:7", "3:7"]);
  expect_places("fn f ( x\n: string\t)\t:\nvoid { { ;\t; } for\t( ; ;  )  { }\n}\nfn\tg ( )\n{  a\n=  void\n1 +  +\t2\n;\t} ", &["7:4"]);
  expect_places("fn f\t( ) { if (\na == 1 )  {\tb = 2  ;  }  elif\n( a  <\t2  ) {\t} else  { foo (\t)\n}  a =\t1  ;  }\t", &["4:1"]);
  expect_places("fn f\n(\ta : int\n,\tb : bool\t) : int\n{\nlet x : int = 1 +  2 *\n(  3 -\ta\n)\n; a\t=\tb ;\tfoo\n( a , 1\n:\n,\t\"s\" ) ; } ", &["10:1"]);
  expect_places("fn f\n( ) { for >=\nlet i\t:\tint =  0 ;  i <  10\n;  i\t= +\t1\t)\n{\nfoo (\ti\t) ;  } } ", &["2:11", "3:29", "4:21", "6:22"]);
  expect_places("fn f (  )\t== for (\nlet i :\nint\n= 0 ;  i < 10\n;  i  =\ti\t+ 1 )\n{\tfoo\t(\ni  )\n;\n}  } ", &["1:14", "9:4"]);
  expect_places("fn < (  2.5 { } ", &["1:4", "1:9"]);
  expect_places("a\nf (\n)\n} ", &["1:1"]);
  expect_places("fn f ( )\t{\tif ( a\n)\n{ if  ( b  ) {  } else { } } elif  (\tc ==  d ) {  for\n( a  = >\t1 ; ;\ta ) {  } }\t} ", &["4:8", "4:8", "4:8", "4:8", "4:8", "4:24", "4:36"]);
  expect_places("fn\nf\n( )\t{  for ( let  i\t: int = 0  ;\ni\t<  10 ;\ni\t=\ti  +\n1 false\n)  { foo\ni  ) ; } } ", &["6:3", "8:10"]);
  expect_places("fn f (\na\n: int\n, + : bool ) :\nint {  let x\t: int =\n1\n+ 2 *\n( 3\t- a\t)\t;\na = b ;\nfoo ( a ,  1  , \"s\" )\t; } ", &["4:3"]);
  expect_places("fn f ( )\n{ if (\ta == 1 )  {\nb\t=  2 ;  /\t}  elif ( a\t<\n2 )\n{\n} else\t{ foo (  )\t;\t} a\n= 1 ;  }\n", &["3:14"]);
  expect_places("fn  f  ( ) { if (  a  )  {  if\n(\nb ) ", &["3:3", "3:3", "3:3"]);
  expect_places("fn  f\n( ) { if (\ta )\t{\tif\t(  if b\tfor {  }\n", &["2:36", "2:51", "2:51"]);
  expect_places("fn f (\t)\n{ if\n( a\n==  1 ) { b\t=  2 ; }  elif (\na\t<\t2  ) {\t}\telse {\tfoo (\t) ;  }  a\t= 1\t} ", &["5:65"]);
  expect_places("fn  f ( a :\nint  ,\tb  :\tbool )\n: int {\tlet\tx\n: int  = 1 +\t2  * ( 3 -\na ) ; a\t=  b\t;\nfoo (\na\n,  1 ,\t\"s\"  ) ; } *\n", &["8:22"]);
  expect_places("f (\twhile ", &["1:1"]);
  expect_places("fn ( a  :\nint ,\tb : bool  ) ", &["1:4"]);
  expect_places("fn  f\t(  a\t:\nint  ,\nb :\tbool )\n:  int {  let x\t:  int = 1 + 2\t*  ( 3\t- a\t) ;  a b b ;\nfoo ( a , 1 ,  \"s\" )\n; }  ", &["4:62"]);
  expect_places("fn\tf ( ) { if (  a ==\n1 ) {  b = 2 ;\n}\telif -  (\na <\t2\t) {\n}\t{ foo ( )\n; }\ta = 1 ", &["3:11", "3:11", "6:8"]);
  expect_places("fn\tf (\t)\t{  let s : = \"s\" ; let\nd : double\t= 2.5\t", &["1:30", "2:17", "2:17"]);
  expect_places("fn ]\n(\n)\tint } ", &["1:4"]);
  expect_places("fn > f ( ) { for\t( let\ti : int = 0\n;\ti\n< 10\n;\ti =  i  + 1 {  foo (\ti  ", &["1:4", "4:18", "4:30"]);
  expect_places("fn f\t( )\t{ for\n(  /\ti\n: int = 0 ;\ti\t< 10 ", &["2:4", "2:4", "2:9", "3:1", "3:1", "3:21", "3:23"]);
  expect_places("fn  f\t(\nx\n:  string )  :\tvoid  { { ; ; }  for  ( ;  ; )\t{\t}\t} fn  g\t(\t) {\n= - 1 + +  2  ; }\t", &["4:1"]);
  expect_places("fn  f\n( ) ", &["2:3"]);
  expect_places("fn f ( x  :\tstring ) :\nvoid\t", &["2:1"]);
  expect_places("fn f (  { if\t(\na  ==\t1\t)\t{ b  =  2 ;\t} elif (  a < 2\n)  {\t} else {  foo\n(  ) ; } a\t= ;\t} ", &["1:9", "4:17"]);
  expect_places("fn f\n(  ) { (\ta == 1  )\n{ b =  2 ;\n1\nelif (\na <\n2 ) { } else {\nfoo\n(\t) ; }  a =  1\n; }\n", &["2:8", "4:1", "7:9"]);
  expect_places("fn  f (\n)\t{ if (\na  )\t{ if\n( b foo ) { } else { } }  (\tc\n==\td {  for ( a = 1 ;\n;\na  = 2 ) {\t} }  } ", &["4:5", "4:5", "4:27"]);
  expect_places("+ f\t(  ) { } ", &["1:1"]);
  expect_places("fn f\t( ) {  if (\na == 1 ) { b =\t2  ;\n}\telif (  a <  2\t)\t{ }\nelse\t{\tfoo\t( )\n;\t}  a\t", &["5:9", "5:9"]);
  expect_places("fn f (  x : string )\n:  void { { ;  ; } for  ( ; ; ) {  } } fn g\t( )  { a  =  -\t1\t+\n+  while 2 ;  } ", &["3:1"]);
}

#[test]
fn recovery_reports_each_fault_in_its_place_2() {
  expect_places("fn f  (  a :\tint\n, < : bool )\n:\tint {\nlet  x\tint\n=\t1\t+\t2\t*\t(\t3  - a )  ; a\t=\tb ;\nfoo\n( a , 1 ,  \"s\"  )\n; } ", &["2:3", "4:11"]);
  expect_places("fn f  ( x :\nstring ) : void fn\n{\t{\n;  ;\n}  for\n( ; ; )\t{  }\n} fn\ng (\n)\t{\ta\t=  -  1 +\t+ 2\t; } ", &["2:17", "5:4"]);
  expect_places("fn f (  ) {\nlet s\t:  string =  \"s\"\n; let d : double\n= 2.5\n;  foo\n(\n( a  ) ,\nb  >=  1 == true\t) ;\n} ", &[]);
  expect_places("fn f ( ) { if\n( string a\n)\t{\tif (  b )\n{ }  else  { } } elif\t(  c\n== d )\t{ for (  a  =  1\t; ;  a = 2  ) { }\t}\t} ", &["2:3"]);
  expect_places("int fn\nf (\n) {  let s : string\t=\n\"s\"\n; let\nd :\tdouble = 2.5 ; foo (  ( a\n)  ,\tb >= 1 == true\t) ; } ", &["1:1"]);
  expect_places("fn f  (\n2.5\t) { for\n(  let  i  :\nint =\n0\n; i <  10 ;  i =\ti\n+ 1  )\t{  foo\n( i\n) ; }\t} ", &["2:1"]);
  expect_places("fn  f\n(  )\t{  if (  a )\n{ if (  b\n)  {  }\telse { }\t}\telif ( c  ==\td :  { for ( a\t=\t1 *\n;\n; a\t=  2\n) {  } } }\n", &["4:47", "4:47", "7:1", "7:8"]);
  expect_places("> fn f (  )\t{\n", &["1:1", "1:16"]);
  expect_places("fn f  (\t) { if\n( a == 1 ) {  b =\t2\t; } elif\t(  a < 2 )\t{ } else\n{ foo ( ]  ; } a = 1\n;\t}\t", &["3:9"]);
  expect_places("f ( x : string )\t:  void { { ; ;\t} for (  ;  ;\n)\t{\n}\t} fn g (\t) { a = - ", &["1:1", "3:26", "3:26"]);
  expect_places("fn  f ( ) {\tfor\n(\tlet i  :\nint = 0\t; i <\t10\t; i =\ti + 1 )\t{\nfoo (\ti ) :  }  }\n", &["4:14"]);
  expect_places("fn f (\n)  for\nfor ( let i\n: int  = 0  ; i <  10 ;\ni\n=\ni\n+ 1\t", &["2:4"]);
  expect_places("fn  f\t( ) { if ( a ) { if\t(\tb\t)\t{ }\nelse {  }\t}\telif (  c\n==\nd )\n{\t;  ( a\n= 1  ;\n;\na =\n2  )\t{ } }\n} ", &["5:9", "9:4", "10:1"]);
  expect_places("fn\nf (\t)  {\tif  (\t:\t== 1\t) {\n>\nb =\n2 ; }  elif  ( a\n<\n2\n) {  } else\n{\nfoo ", &["2:25", "3:1", "10:1", "10:1", "10:1"]);
  expect_places("fn\tf\t(\t) ", &["1:17"]);
  expect_places("fn f\n(\t)  {\tfor  ( let i :  int =\t0\n; i } bool\t10 ;\ni =\ti +  1\n) { foo  (\ni  )  ;\n}\n}  ", &["3:5", "3:5", "5:1", "8:1"]);
  expect_places("fn\n)  (  ) { } ", &["2:1"]);
  expect_places("fn  f\t( )\n{\tlet\ts\nfalse\tstring =\t\"s\" ; let\td  : double = 2.5 ; foo\t(\t(  a ) , b >= 1 ==  true true\n;  }  ", &["3:1", "3:92"]);
  expect_places(";  fn\nf  ( )\t{ for\t(\nlet\ti  :  int\t= 0 ; i < 10  ;\ti\t= i\t+ 1 ) {\nfoo\n( i )\t;\n}\n}  ", &["1:1"]);
  expect_places("fn\tf\n( x :  string\t)  : void {\t{\n;  ; } for ( ; ; )\t{ } } ", &[]);
  expect_places("fn\tf (\n) {\tfor (\tlet\ti : int = 0\t;\ni  <\n10 ; i  = i b  1 )\n{  foo  (  i\t) ; } }\n", &["4:13", "5:23"]);
  expect_places("fn f (\t)\n{ if\n(\ta )  { if  (  b\t)  { }\nelse {  }\n}  elif\t(\tc == d  ) for (\na = 1\n; ;  a =\n2\t) {\n} }\t}\t", &["5:27", "8:6", "9:3"]);
  expect_places("fn\nf  ( ) { if  (\na ) {  if ( b\n)\t{ } else\t{ }  } elif ( c == d )\t{  for\t( a = 1 ;\n;  a  = 2 ) {  }\t} ", &["5:21"]);
  expect_places("fn\nf (\t)\t{ if >=  a  )  {\tif ( b\n) {  } else {  }\t} elif (\nc\n==\nd\t)  {  for  ( a\n=\n1 ;  ;  a\n=\t2\n) {\n} }\t} ", &["2:18", "2:18"]);
  expect_places("fn\nf ( )  { if (\ta ==\t1\n)\n{ b =\n2 } elif  ( a  < 2\n) {  } else\t{\nfoo  ( )\nb  ;\n} a = 1  ; }\t", &["5:3", "8:1"]);
  expect_places("fn f (  x  : string ) :\nvoid { {\t; ;  }\nfor  (\t;\t; ) {  } fn g while  ) a = -  1 +  +\n2  ;\n}\n", &["3:25"]);
  expect_places("fn ( ) {  for  (\nlet i :  int\t= 0 ;\ti\n<  10\t;  i = i + 1\t) { foo (\ti ) } } ", &["1:4", "3:43"]);
  expect_places("fn f ( x : string ) :\nvoid { {\n; ; }  for  (\t;\nfor\n)\n{ }\n} ", &["4:1", "4:1", "4:1", "7:1"]);
  expect_places("fn\nf (\t)  { if (\na == 1  )\t{\nb =  2  ;  } elif (  a ", &["4:22", "4:22", "4:22"]);
  expect_places("fn  ( )\t{ ", &["1:5", "1:12"]);
  expect_places("fn  f (  )  {  if  ( a\n) {\nif ( b ) {\n}  else {  } }  elif ( c == *\td ) { for ( a\t= 1\t; ; a  =\n2 )  { }\n} ", &["4:29", "6:1"]);
  expect_places("fn f (  )\n{  if\n( a\n==  1\n) {\nb = 2\t;  }\nelif (\na\t< 2 ) {  } else\nvoid\n{  foo ( )  ;\t} a = 1 ;\t} ", &["9:1", "10:20"]);
  expect_places("fn f  < )  {  }\n", &["1:7"]);
  expect_places("fn\nf (\t)  {\nlet s  : string = \"s\"\n1\nfn let\td\t: double = 2.5 ; foo (\n(\na )  , b\n>= 1\t== true ) ;  } ", &["4:1", "5:1", "5:4", "6:1"]);
  expect_places("fn f ( )\n{ {\nfor ( let i\n:\tint\t= 0 ; i <\t10\n;\ti =\ni\t+\n) { foo  ;\n( i )  ; }\t} ", &["7:1", "7:10", "8:1", "8:15"]);
  expect_places("fn\tf  ( { let\ns\n:\nstring\n= \"s\"\n;\nlet\nd  : double = 2.5 ; foo  (  ( a )\n,\nb >= 1\t==  true )  ; }\n", &["1:12"]);
  expect_places("fn\nf else ( ) { for\t( let i\n: int  = 0\t;  i  <\n10 ;  i = i +\n1 )\t{  foo\n(\ti ) ;\n} } ", &["2:3"]);
  expect_places("fn f  (\n)\t{ if\t(  a\n== 1 )  ( b = 2\n; } elif ( a  < 2\n) { }\telse\n{\nfoo  (  )\t; } a =  1 ;  }  ", &["3:9", "4:5"]);
  expect_places("fn\tf\t( x\n: string  ) :\tvoid  { fn { ;  ;\t}\tfor (  ;\n;  ) {\t} } fn\ng ( ) { a\n=\n-\t1\n+\n+\t2 ;\n} ", &["2:26", "2:44"]);
  expect_places("fn\nf\t(\t) { for\t( i\n: int\t= 0 ; i  < 10 ;  i  = i\t+  1\t) {\tfoo\t( i while ;  } }\t", &["3:1", "3:1", "3:1", "3:1", "3:1", "3:19", "3:45", "3:74"]);
}

#[test]
fn recovery_reports_each_fault_in_its_place_3() {
  expect_places("fn  f (  x\n: string\n)\n: void { { ; ;\n} for\n(  ;\n;\n)  { } } fn\n( )\n{\na =\n- 1 + + 2\t;\t} ", &["9:1"]);
  expect_places("fn\tf  ( )  {\tif (  a\t== 1  ) )  b =\t2\n;  }  elif  (  a < 2\n)  { }  else\t{\nfoo\n(\n) ; ", &["1:39", "2:7"]);
  expect_places("fn f\n(\nx : string )\n:\nvoid  {  { ; ;  } a  for ( ; ;\t)  { } }  fn\ng (\t)\n{  a  = - 1 + +  2 ; } ", &["5:22", "5:35", "5:42"]);
  expect_places("fn f\n( ) for\t(\tlet i : int  = 0 ;\ti < 10  ; i\n= i  +\n1 ) { ( i\n) ;\n} }\n", &["2:5", "6:3"]);
  expect_places("fn  f (\t) { let\ns  :  string\n=\t\"s\" ;\tlet d\n:  double =  2.5 ;  foo (  (  a\n)\t,\nb >= 1\tfor  == true )  ;\t} ", &["6:11"]);
  expect_places("fn\tf ( )  { for ( let\ti\t", &["1:29", "1:29", "1:29", "1:29", "1:29", "1:29"]);
  expect_places("fn\nf\t( ) { if\n( a ==\t1  ) {  b  =\n2 ;\n}\telif (\na <\t2 )  {  }\telse  { foo\n>\n) ;  } a\n=\nstring\t1 ;\n}\t", &["7:1", "10:1"]);
  expect_places("fn\tf foo ) {\n", &["1:9", "1:13", "1:15"]);
  expect_places("fn f (  while }\t", &["1:9", "1:15"]);
  expect_places("fn f  ( ) {  if\t(\ta  ) {\nif (\nb\n)\t{ }  else {  } } elif ( c\t==  d )  { for (  a\n=\t1 ; ; a  = 2\t)\n{\n<=\t}\t}\n", &["7:1", "7:12"]);
  expect_places("fn  f\t( x\n:  string )\n: void {\t{ ;\n; }\nfor ( ; ; )  {  }  }\nfn g ( )\n{\ta =  -\t", &["7:11", "7:11"]);
  expect_places("fn f void ) { if ( a\n== 1\t) {\nb\t= 2 ;  }  elif\t(\na  < if )  {  } else { foo (\n)\n; }  a  = >= ; }\n", &["1:6", "4:6"]);
  expect_places("fn f\n(  a  :\tint\t,  b :\nbool )\n:\tint { let x  :\nint foo\n= 1 +\n2  *  (  3 - a\n)  ; a  = [ b\t;\tfoo\n(\ta , 1 ,\n\"s\" )  ;\t} ", &["5:5", "8:11"]);
  expect_places("fn f  ( ) { >=\n} ", &["1:13"]);
  expect_places("fn ", &["1:1"]);
  expect_places("fn\tf\t( {\nlet\ts\t: string  = \"s\" ;  let\nd :  double =\n2.5 ; foo\t(  (\na ) ,\tb >=  1\t== true )\n;\n}\n", &["1:14"]);
  expect_places("fn f\n( ) {\nlet\ts : string  = \"s\"  ;\nlet d  :\ndouble\t=\n2.5\t; foo (\n(\ta true ) , b >= 1  == true ) ; } ", &["7:8"]);
  expect_places("fn f (  ) { if\n(\ta == 1\t) { b  =  for 2 ; }  elif\n( a\t< 2\n)\t{\n} else {\nlet\nfoo ( ) ;  }\na = 1\t; }\n", &["2:26", "7:5"]);
  expect_places("fn f\t( ) {\tfor\t(  let i  : int\t==  0 ; i <\t10\n; i  =  i  +\n1 ) {\tfoo\n( i )  } }\t", &["1:44", "4:8"]);
  expect_places("fn\tf\t(\n) {\tif ( a\n==\t) { 1 b =\t2 ;\n} elif (  a 2  )\n{ } else {\nfoo\n(  )\t; }  a =  1  ;\n} ", &["3:7", "3:11", "4:13", "4:13", "5:5"]);
  expect_places("fn\nf (  a\t: int\t,  b :\nbool\t)\n:\nfn { let x : int\t= 1\n", &["5:1", "5:4", "5:23", "5:23"]);
  expect_places("fn f ( a\n: int  ,  b :\tbool 3f ) : int\t{ let x :  int =  1\t+ 2\t* (  3\t-  a  ) ;\na\t=\nb\t; foo ( a\n, 1\t,  \"s\" )\t;  }\n", &["2:23"]);
  expect_places("fn  f  ( ) {  ", &["1:12"]);
  expect_places("fn  f ( x\n: string ) : void { {\n; ; }\nfor  (\t; ;\t) { } }\nfn  g (\n) {  a\t= - 1 + +\nbool 2 ;  } ", &["6:19"]);
  expect_places("fn\nf\t(\t) {  for\t(\tlet i\t", &["2:32", "2:32", "2:32", "2:32", "2:32", "2:32"]);
  expect_places("fn f\t( )\n{ for  ( let i :  int = 0\n; i  < 10 i\n=\ni\t+  1 )\n{ foo  ( i  )\n;\t}\t} ", &["3:11"]);
  expect_places("fn f\t(  )\n{ if\n(\ta == 1 )\n{ b = 2  ;  } elif (\na\t< 2 ) {\t} else\n{\nfoo ( )\t; } a\n= ", &["8:1", "8:1"]);
  expect_places("fn  f (  )  { let\ts :\nstring = \"s\"  ;\nlet\td  :\ndouble while =\n2.5\t; foo (\n>=\ta )  ,  b  >=\n1 == true\n)\n; }\n", &["4:8", "6:1"]);
  expect_places(") fn f (  x  : string\t)  : void\n{ { ;  ; } 3f (  ; ; ) { }\t} fn g\t( )  { a\n=  -\n1\n+ + 2\t;\t}  ", &["1:1", "2:12", "2:22", "2:31"]);
  expect_places("fn\tf\n( )  { if (\na ) {  if ( b\t) {\t}\nelse }\t} elif  ( c  == d\n) {  for\t( a\t= 1\t; ;\na =  2 ) {\n} } ", &["4:6", "4:13"]);
  expect_places("fn\tf\n(  ) { if (  a\n== 1  )\t{\tb =\t2\t;  }  elif  (\na <  2 ) { while }\telse\n{\nfoo ( )  ; }  a\n= 1 ;\t} ", &["4:12"]);
  expect_places("fn f\n(\n)\t{ for  ( let\ni : int\t=\t0\t;\ni <  10\n;\ti =  i\n+\n1 )  {\nfoo (  i [\t; } }\n", &["9:10"]);
  expect_places("fn f ( ) {\tfor (\tlet let : int ", &["1:28", "1:34", "1:34", "1:34", "1:34", "1:34"]);
  expect_places("fn f\n( )\n{ if (\na )\t{ if  ( b\n)\t{\n}\telse {\t}\t}\nelif  ( c ==  d ) {\n(\na = 1\t; ;\ta = 2\n) {  }  }\t}\t", &["8:1", "10:1", "10:14"]);
  expect_places("fn\t)\tf\t(\n) { }\t", &["1:7"]);
  expect_places("fn\nf ( ) let s :\nstring =\n\"s\"  ; let  d\n:\ndouble =  2.5  ;  ", &["2:7"]);
  expect_places("fn f  (\tx  : string\n2.5  ) else  : void {\t{ ;  ; }\tfor (\n;  ;  ) { }  } fn g\t( )\t{ a  =  -  1  +  + 2  ; } ", &["2:1"]);
  expect_places("fn  f\t( ) {  for  (\tlet i :\tint\n= 0 ;\ti <  ;\ti =\ti  + 1  )  { foo (\ni\n) ;\n}\n} ", &["2:15"]);
  expect_places("fn\nf (\nb\t{ if\t( a\n== 1 ) { b\n= 2 ;\n}  elif ( a < 2 ) {\n} else\n{ foo (  ) ; }\na = 1\t;\t}\t", &["3:6"]);
  expect_places("fn\tf ( a\n:\nint ,\tb : bool ) :\nint {  let x  :  int\n= 1\n+\t2  *\t( 3\n-\ta ) ;\na\n=\t;\tfoo  ( a\t, 1\t, \"s\" )  ; }\n", &["9:6"]);
}

#[test]
fn recovery_reports_each_fault_in_its_place_4() {
  expect_places("fn f  ( ", &["1:7", "1:7"]);
  expect_places("fn f  b ", &["1:7", "1:7", "1:7"]);
  expect_places("fn b  ", &["1:4"]);
  expect_places("\"s\"  fn == ( )  { } ", &["1:1", "1:9"]);
  expect_places(", f  (\t[  ) {  for\n( let i  :  int = 0\t; i <\t10 ; i  =\ti + 1 ) {\nfoo  ", &["1:1"]);
  expect_places("fn\nf\t( )\n{ if\n(\na )  {  int ", &["5:9", "5:9", "5:9"]);
  expect_places("let  fn  f\n( )\t{ for\n( let string\ti :\tint = 0  ; i <\t10 ;\ti\t=\ni\t+ 1 )\n{\nfoo  ( i ", &["1:1", "3:7", "6:8", "6:8", "6:8"]);
  expect_places("fn f  ( )  {\nif  a ==  1  ) { b =  2\t;  } elif  ( a <  2 )  {\t} else { foo\t( ) ;\t} a =\t1 ;  }  ", &["2:5"]);
  expect_places("fn f b ( ) { ", &["1:6", "1:8", "1:12"]);
  expect_places("fn  f (  ", &["1:7", "1:7"]);
  expect_places("fn  f  ( )  { let s\t:\nstring =  \"s\"\t; let\nd\t: - double  =  2.5 ; foo\t(  ( a\n) ,\nb >=  1\t== )  ;  }\n", &["3:8", "5:15"]);
  expect_places("fn f\t(  ) { let s : string\n=\t\"s\"  ; let d\t:\nfoo\tdouble\t= 2.5 ;\tfoo  (  ( a ) , b\t>=  1  ==  ", &["3:1", "3:57", "3:57"]);
  expect_places("fn f (  ) { let s : string  =  \"s\"\t;  let d :\ndouble\n= 2.5  ; foo  (  (  a  ) , >= a\t>=\t1\t==\ttrue\t)  ;  }\t", &["3:28"]);
  expect_places("fn f (\n)\t{ if ", &["2:8", "2:8", "2:8", "2:8"]);
  expect_places("fn f\n( ) {\tlet s :\nstring\t= \"s\"\t;  let d : double =\n2.5 ;\nfoo (\telif  a ) ,  b >= 1\t==  true )\t;  } ", &["5:10"]);
  expect_places("fn ( ", &["1:4", "1:4", "1:4"]);
  expect_places("fn\nf ( a  : int  ,\tb  : bool )\t: int  {\tlet x\n:\n", &["3:1", "3:1"]);
  expect_places("fn f ( )  / {  }  ", &["1:11"]);
  expect_places("fn\nf (\t)  { if ( a ) { if\n(\tb  ) {\t}\nelse ]  }\t}  elif  ( c == d ) { for  ( a = 1 ; ;\na =\t2 ) {  } }\n}\n", &["4:6", "4:17"]);
  expect_places("\"s\"  f  (\n", &["1:1"]);
  expect_places("fn f  ( ) { let\ts : string\n= \"s\" ;  let d :  double )\n=\n2.5 ; foo\n(  (\ta  )  , b\t1 == true )\t; } ", &["2:26", "5:22"]);
  expect_places("f  ", &["1:1"]);
  expect_places("fn\tf\t(\nstring\n:  string )\t: void { ", &["2:1", "3:23"]);
  expect_places(", fn  ( )\n{ }\t", &["1:1", "1:7"]);
  expect_places("fn\nf (\n) {  if (\na ) ", &["4:3", "4:3"]);
  expect_places("fn f\t( a  :\nint ,\nb :  bool )\t: int { let x : int = 1\t+ 2 * (  3 -\na\t) ;\na ", &["5:1", "5:1"]);
  expect_places("fn\nf  ( ) { if\t(\ta + )\tvoid\n{ if  ( b  ) {\t} else\t{\n}\telif  (\nc\t== d ) { for (\ta\n=  1\n;  ; a = 2 ) {\t} }\t} ", &["2:25", "2:30", "3:21"]);
  expect_places("fn f ( ) { * s :  string =\n\"s\"\t; let  d\t: double =  2.5  ; foo\n(\t(\na )\n, b >= 1 == true ) ;\t} ", &["1:12"]);
  expect_places("fn f\t(\t) { foo  let  s : string =\n\"s\" ;\tlet d  ", &["1:23", "2:14", "2:14"]);
  expect_places("fn f  (\n) {\nfalse ( let i :\nint\t", &["3:1", "4:1"]);
  expect_places("fn\tf\t( )\t{ if ( a ) { if (\tb  ", &["1:40", "1:40", "1:40", "1:40"]);
  expect_places("fn f ] (\na :  int ,  b : bool\t)\t: if int  { let\tx\t{\n: int  =\n1 + 2\t*\n(  3  -\ta ) ;\ta = b\t; foo\n( a , 1\n,\t\"s\" ) ;\n} ", &["1:6", "2:32", "2:54"]);
  expect_places("fn\nf ( )\n{ if  ( a ) { (  b ) { }  else { } }  elif ( c ==\nd )\n{  ", &["3:15", "3:39"]);
  expect_places("fn\tf (\n) {\tif ( a ==\n1  ) { b\t= 2 ; } elif\t(  a\t< 2 )\t{ }\nelse\t{\nfoo\t( return ;\n} a =  1 ;\t}\n", &["5:10"]);
  expect_places("fn f ", &["1:4"]);
  expect_places("fn f ( )  {\tfor (\nlet\ti\n:  int = 0\n; < 10 ;\ni\t= i\n+ 1 ) {\tfoo\t( i )\t;\t} }\n", &["4:3", "4:3", "4:3", "6:5", "6:35"]);
  expect_places("fn f  (\tx :  string  )  :  void\t{ {\n;\n; } for\n( for ; )\n{ }\n}\nfn\ng  ( ) { a\n=\t- 1 +  +\t2  ; } }  ", &["4:3", "4:3", "4:3", "4:3", "4:9", "6:1", "9:25"]);
  expect_places("fn  f  ( a : int  ,\tb  : bool\n)  : int { let x\t:\tint = 1 +\n2 *\n( 3 - a  ) ;\ta  =  b ;\tfoo\t(\na  ,\n1\n\"s\" )  ", &["7:1", "7:5"]);
  expect_places("fn f  ( ) { let s\n: string\n= \"s\" ; let  d : double = 2.5 ;\t(\t( a\t)\t,\tb\t>= 1  foo == true ) ; } ", &["3:36"]);
  expect_places("fn f (  3f\nfalse { }  ", &["1:9"]);
}

#[test]
fn recovery_reports_each_fault_in_its_place_5() {
  expect_places("f ( ) ", &["1:1"]);
  expect_places("fn\tf ( x\n: string\t) else :\tvoid ", &["2:15"]);
  expect_places("fn f  ( ) {\tif\t( a )\n{  if  ( b  ) {\t} else\t{\t}\n} elif ( c  == d ) { for\n( -  =\n1 ; ] ;\ta = 2 )\n{ } } }  ", &["4:3", "4:3", "4:6", "4:6", "5:5", "5:18", "6:7"]);
  expect_places("fn f\n( )  { if (  )  { if ( b )\n{ }  else\n{\n}  }\telif\t(\nc ==\nd\n) { for ( a\t= 1 ;\t; a = 2\t) { }  } } ", &["2:14"]);
  expect_places("string fn f ( ) ", &["1:1", "1:15"]);
  expect_places("fn  f  ( bool ) {\nif (\ta ==  1 )\n{  b\t= ", &["1:10", "3:9", "3:9", "3:9"]);
  expect_places("fn\nf\t(\nx : false ) : void\t{ { ;\t;\t} for ( ;\t; ) { } } fn  g\t(  )\t{ a  =\t-\t1  +\t+\t2 ;\t}\n", &["3:5"]);
  expect_places("fn  f (\t)\t{ < s ", &["1:19", "1:21"]);
  expect_places("fn f (\tx\t: string ) return\tvoid { { ;\n;\t}\nfor (  ; ;\t) { }\n}\nfn\tg  ( ) {\ta  =\n- 1 +\t+ 2\t; }\n", &["1:27", "3:1"]);
  expect_places("fn f\t(\tx  :  string\n)\t:\tvoid\n{\t{ ;  ; }  for (\t; ;\n)\t{ } }  fn g\n(  ) { a\n=\t", &["6:1", "6:1"]);
  expect_places("fn f\n(\nx\n: string ) :\t", &["4:12"]);
  expect_places("fn f\t(\ta :\tint  ,\tb :  bool )\ta\n: int  { let  x :\tint\n=\t1\t+  2\n*  ( 3 -\na )  ;  a\n= b ;\nfoo ( a\n, 1\n,\n\"s\" =  ) ;\n}  ", &["1:46"]);
  expect_places("fn f (\n) {\nfor  (  let i\n: int = 0\t; i\t<  10  ;  i  =  i\t+\n1 ) { foo\n(\na\n)\n;\t}\n} ", &[]);
  expect_places("fn f ( a : int\t, b :\tbool  ) :\nint  {\nlet x : int  = 1 +  2 * ( 3\n-\ta ) ; a = b  ; foo\n( a (  , while ,  \"s\"  )\t; }  ", &["5:5", "5:10"]);
  expect_places("fn\nf ( ) { let\ns\t: string =\n\"s\"\t;\nlet\td : double = 2.5 ;\nfoo /\n(  a )\t,  b  >=  1\t== true\n)\n; }\n", &["6:5"]);
  expect_places("fn f  ( a :\tint  int ,\tb :\nbool )\n: int {\tlet  x :\n, = 1 +\n2\t* ( 3\n- a )  ; a = b\t;  foo (  a ,  1\t,  } ) ;  } ", &["1:21", "4:1", "6:42"]);
  expect_places("fn\nf (  { let\ns : string\t= \"s\" ;\tlet d\t: = 2.5 foo ( (\ta\n)\n,\tb  >= 1 == true  ) ;  }\n", &["2:6", "3:37"]);
  expect_places("fn f  (  x\t: string\t) :  void { )  { ", &["1:39", "1:42"]);
  expect_places("fn f  (\n) { if (  a == 1 )\t{  b =\t2 ;  } elif  (  a\t< 2 )  {  }\telse { foo ", &["2:76", "2:76", "2:76"]);
  expect_places("fn\tf\n(\t)  { for\t( let\ti :  int = 0\t;  i  < 10\n; i =  i +  1\n)\t{ foo ( i ) ;\t}\t}\n", &[]);
  expect_places("fn f (\tx\t:  string ) : void { { [\n;\t", &["1:39", "2:1", "2:1"]);
  expect_places("fn f (\n)\t{ let\t> s : string\n= \"s\" ; let d\n:\tdouble\t= 2.5 ; foo ( ( a )\t, b\n>=\t1\t== true\n) ; }\n", &["2:15"]);
  expect_places("fn f\n( ) {\nif\t( a  == 1 )\n{ b\n=\n2  ;\n}  elif ( a < 2 )  {\t}  else\t{\nfoo  ", &["8:1", "8:1", "8:1"]);
  expect_places("fn\nf\t(\t)\n{ if (\ta\n) {  if\t( b  )\t{\t}\n{\n}\n} elif ( c == d )\n{ for ( a = 1  ;\n; a = 2 )  {  }\t} } ", &[]);
  expect_places("fn\tf (\n", &["1:9", "1:9"]);
  expect_places("fn f\n( )\n{  if ( a\n)  { if\n( b\t)\n{\nelse  {  }\t} elif\n( c\t== d\n) {\tfor (\ta\n=\t1\t;\n;\ta =  2\t)\t{ }\t} } ", &["7:1"]);
  expect_places("fn  f ( a  :\tint ,\nb : bool  )\n:  int { let  x : int =  1\n+\n2\n* (  3\n- a )\n; a =  b ;\nfoo  (  a , 1 ,  \"s\" )  > ; }\t", &["9:25"]);
  expect_places("fn\tf (  ) { let  s :  string = \"s\" ;\nlet d : double\n}\n=  ; foo ( (  a  )\t, b  >= 1\t== true\n)  ;\n}\n", &["3:1", "4:1"]);
  expect_places("fn\nf (  a\t:\nint , b\n: bool ) :\tint  { let\nx : int\t=  1\t+\n2\n* ", &["7:1", "7:1", "7:1"]);
  expect_places("fn ( ) { } ", &["1:4"]);
  expect_places("fn\tf\t( ) { if\t( a ) { if  ( b )  { }\n{ }\n}  elif\n( c\n==  ) {\nfor (\ta\n=\t1\n;\t;  a\n=\t2  )  {  }\t} }\t", &["5:5"]);
  expect_places("fn f ( x :\tstring  ) : void\t{  { 2.5 ; }  for\n( ; ; ) {\t}\t} fn g  (  ) {  a\n=\n-  1 + + 2  ;\t} ", &["1:40"]);
  expect_places("fn  f  (\n) { for (\tlet i\n:\tint\t- =  0 ; i\t< 10\n;\ti\n=\ni\t+ 1 ) {  foo\n(\ti\t)\t;  } } ", &["3:13"]);
  expect_places("fn\nf ( ) { let\ts\t:  string  = \"s\"  ; let d\t:  double  =\n2.5\t;\n( (  2.5  a ) ,  b\n>= 1  == true\t) ;\t} ", &["4:1"]);
  expect_places("fn\nf (\n)\t{  if  (  a\t) { if\n( *  b ) { }\nelse {\t}\t}  elif ( c == d\t) {\tfor (\ta\t= 1\n; ;\ta  =\t2\t)  {  } }  ", &["4:3", "6:29"]);
  expect_places("fn f (\n) while\tif ( * == 1  ) b  =\n2  ; } elif\t( a\t< 2  ) {  } else  {\tfoo (\t)\t;  } a = 1  ; }\t", &["2:3", "3:8"]);
  expect_places("fn f ( ) {\nif  (\na == 1 )\n{ b =\n2 ; } <=\nelif (\na\t<\n2 )\t{ } else\t{\tfoo\n(\n)\t; } a\n=  1 ;  } ", &["5:7", "8:12"]);
  expect_places("fn\nf (  ) { if (  a )\t{\tif (  b\n)\n{\t}\telse\n{  }  }\n", &["5:7"]);
  expect_places("fn\tstring  f  (  ) { for\n( ", &["1:7", "2:1", "2:1", "2:1", "2:1", "2:1"]);
  expect_places("fn f ( )\n{ for ( let\ti  : int\n", &["2:21", "2:21", "2:21", "2:21", "2:21", "2:21"]);
}

#[test]
fn recovery_reports_each_fault_in_its_place_6() {
  expect_places("fn\nf ( ) }\t", &["2:7"]);
  expect_places("fn  f ( x :  string\n)  :  void {\n{ ; ; } for ( ; ; ) { } } fn g ( ) {  a  = -\n1 +\t+  ", &["4:8", "4:8"]);
  expect_places("fn f (  )  {\tfor\t(\nlet\ti :  int\n=\t0\t;  i  < 10\n;\ni\n<=  ", &["6:1", "6:1", "6:1"]);
  expect_places("fn\n", &["1:1"]);
  expect_places("fn\tf ( ) { if\n(\na )  { if  (\nb ) {\nint\n} else  { } }\telif  (\tc ==\nd  )\n{ for\n( a\t= 1\t;\n;\ta\n= 2 ) {\t} } } ", &["5:1"]);
  expect_places("fn\nf (\na\t: int , b bool\t) : int  { let\nx\n: int = 1\t+\n2\n* ( 3  -\na )\n;\ta = b\t;\nfoo (  a ,\t1 ,  \"s\"\t) ;\n} ", &["3:16"]);
  expect_places("fn  f (  )\tfn {\nif (\twhile\na ==\t1\n)\n{\nb = 2 ;\t}\telif  ( a  <  2  ) { }  else\n{  foo\n( ) ;\t} a = 1 ;  }\t", &["1:15", "6:17"]);
  expect_places("fn  f ( ", &["1:7", "1:7"]);
  expect_places("fn  f ( x  :  string ", &["1:15"]);
  expect_places("fn  f (  )  {\t", &["1:13"]);
  expect_places("fn\tf (  ) { let s  : fn =\t\"s\" ; let d :\tdouble = 2.5 ;\tfoo ( ( ", &["1:25", "1:74", "1:74", "1:74"]);
  expect_places("fn f  ( )  { if  ( a ==\n1  ) { b = 2 ; } elif\n(  a <  2\n) {  } else { foo )\t; }\ta\t=\n1\n;  }\n", &["4:19"]);
  expect_places("fn  f a :\tint\t,  b :\nbool  )\n: int {  let\tx  :\nint =  1  +  2\n* (\n3\t-  a\n) ;  a == = b ;  foo (  a  , 1 ,\t\"s\"\t> ; }\t", &["1:7", "7:8", "7:46"]);
  expect_places("fn f  ( x\n:  string ) :  void { {\n; ; }  for (\n;  ; ) {  } fn\tg\n( )\nint\n{\na = - 1 + + 2  ;\n} ", &["4:13"]);
  expect_places("fn\t] f ( ) {\nlet s :  string\n= \"s\"\t; let  d :\n", &["1:7", "3:19", "3:19"]);
  expect_places("fn f  ( ) {  for\t( let i\n: int  =\t0  ;\ni <\t10  ;  i = i\n+ 1 )\n{ foo  ( i ) ;  } ", &["5:17"]);
  expect_places("fn\tf ( )  {\tfoo\tif  ( a\n) { if\n( b {\t} {  else\t{  }\n} elif (\nc\t== d  )  { for (  a =\t1 ;\t;  a\t=  2 ) {\t}\t} } ", &["1:26", "3:12"]);
  expect_places("fn f  ", &["1:4"]);
  expect_places("fn f (\nx : string ) void  {\n{ ;  ; } for  (\t;  ; ) {  } } fn g (  )\n{ a\n= - 1\n+\n+  2 ;\n} ", &["2:14", "3:10"]);
  expect_places("fn  f\t( ) { for ( let i :  int\n=  0\n; i  <  10 ; i\t= i + 1\n)  { foo\n(  )  ; }\t} ", &[]);
  expect_places("fn  f\t(\t) { let s :\t", &["1:25", "1:25"]);
  expect_places("fn\tf ", &["1:7"]);
  expect_places("fn ( )\n{ } ", &["1:4"]);
  expect_places("fn\tf (  )  {\nif\t(  2.5 ==\n1\t)\t{\tb  =  2\t;  }  elif (  a <\n2 )  { } if { foo  ( )  ;\t} a  =\n1 <=  ; } ", &["4:13", "4:13"]);
  expect_places("fn  f\n( \"s\" ) {\nif (  a ==\t1 )\t{\tb =  2 ;\n}\nelif ( a\t<\t2\n) {\n} else\n{ foo\n(\n)\n; }\na\t= 1 ; }\n", &["2:3"]);
  expect_places("a\n", &["1:1"]);
  expect_places("fn\n]  f ) } ", &["2:1"]);
  expect_places("/  fn f\t(\n) { if\t(\ta  ==  1\n) {\nb = ;  }  ", &["1:1", "4:5", "4:8"]);
  expect_places("fn\nf\t(  a : int , b :\nbool ) :\nint {\nlet x  : int ", &["5:10", "5:10"]);
  expect_places(": = ( ) {\n} ", &["1:1"]);
  expect_places("fn\nf  ( : int , b  : bool  )\t:  int {  let x\t: int  =  1 + 2\n* (  3  -\na  )\t;  a\n= b\n;  foo\t(  a\n, 1  , \"s\" )\t; } ", &["2:6"]);
  expect_places("fn f ( ) {\tif ( a  == 1\n) { b\t=\t2\t; }\telif  ( a\t<  2\n)  {\t}\telse  {\tfoo ( )\n; } a  = 2.5\t1  ;\n} ", &["4:17"]);
  expect_places("fn f\n( ) { if ( a\t== 1\t)\t{\tb\n= 2 ; }\nelif\ttrue a <\t2\t) {\n} else\n{\nfoo ( )  ;  }\na =\n1  ; } ", &["4:9", "4:14", "4:14", "5:3"]);
  expect_places("fn f  ( )  {\nif\t( a == 1\n) {\tb\n=\n2\t; } elif\n(  a <  2  )\t{ }\telse  { foo  ;\t( ) ;\n}\ta =  1  ; }\n", &["6:37", "6:42"]);
  expect_places("fn ( x : string\n) : void  { { ; ;\t}\tfor ( ; ;\n)\t{ }  } fn  g\n( )\t{ a  = -  1 +\t+ 2  ;\n}\t", &["1:4"]);
  expect_places("fn elif  f (\t)\n{\nfor  ( let i\t:\nint\n=  0 ;\ti < 10 ; i\n=  i +\t1 ) { foo  (\ti  ) ; } } ", &["1:4"]);
  expect_places("fn\tf (\n) {\tif\n( a\n)\t{  if  (  b )\t{  } else  bool {\t} } elif (\tc\n==\td )\t{\tfor ( a  =  1\n; ; a =\t2\t) {  }\tfn\t}  }  ", &["4:34", "4:48", "6:33"]);
  expect_places("fn\nf ( x\t:  ", &["2:10", "2:10"]);
  expect_places("fn\tf\t( )\t{  if ( a  ", &["1:27", "1:27", "1:27"]);
  expect_places("fn\nf  foo a\n:\nint  (\n, b\n: bool ", &["2:4", "2:8", "6:3"]);
}

#[test]
fn recovery_reports_each_fault_in_its_place_7() {
  expect_places("fn\nf ( )\nif (\t[ a ==\t1 )\t{\nb =  2\t; }  elif (\na\n< 2\n{ } else\n{  foo (\n)\n; }  a\n= 1\n; }  ", &["3:1", "4:16"]);
  expect_places("fn\nf\t( ) { if ( a ) {  if (\tb )  {\t} else {\t}\n} elif ( c\n==\nd\n) { for  (  a =  1 ; ; ==\ta\t= 2  ) { } } } ", &["6:24", "6:48"]);
  expect_places("<=\tfn f ( ) {\tif (\na  == 1 ) { b\t=  2 ; } elif ( while\n< 2 ) {  } else\t{  foo  ( )\nfalse ; } a\t=  1  ; } ", &["1:1", "2:34", "4:1"]);
  expect_places("fn f ( )\t{ for ( let  i :\tint =  0\n;  i <\n10 ; i = i + 1  )  { foo ( i )\n;  ", &["4:1", "4:1"]);
  expect_places("fn f (\n) { let\ns : string\t=  \"s\"  ;\tlet\td : double\n", &["3:39", "3:39"]);
  expect_places("fn  f true\t(\t) { if ( a  )  { if  (\nb ) { }  { } }  elif ( c ==  d )\n{  for ( a =  1 ; ;\ta\n=  2 ) { } }\t}\n", &["1:7"]);
  expect_places("fn  f (\t== :\nstring  ) : void\n{ {\t;  ;\n}\tfor ( ; ; )  {\t} }\tfn\tg ( ) { a =  - 1\n+  + 2\n;\n} ", &["1:12"]);
  expect_places("fn  f ( a\n:\nint ,\tb\t:\nbool  ) :\nint\n{\tlet x :\tint =  1 + 3f  2 *\n(  3 - a )  ; a =\tb ;\nfoo (  a , 1  , \"s\"  ) ; } ", &["6:32"]);
  expect_places("fn f\n( )\n{\nif\n( a\t==  1\n)\n{  b = 2 ; } elif  ( ;\t<  2 ) {\n}\telse  { foo ( )\t}\na  = 1  ;  }\t", &["7:22", "7:22", "7:27", "8:6"]);
  expect_places("fn  f ( x : string\n) :\tvoid\tb\t{\n{ ;\t; } for (\n; ;  )  { }\t} fn g\t(  )\n{ a = -\t1 + +\n2 ; } ", &["2:16", "3:12"]);
  expect_places("fn\nf\n( a\n:\nint\t, < b :  bool\t) : int  {\nlet x  : int  =  1 +\n2\t*\n(\t3 -\na )\n; a  = b ;\nfoo (\na ,\n1\t,\t\"s\" )\t; }\n", &["5:10"]);
  expect_places("fn  ", &["1:1"]);
  expect_places("fn  f\t( ) {\nlet s  :  string  =  \"s\"  ;  let d\t: double\n= 2.5 ;\nfoo\t(\n(  a )\t, >= >= 1 == true ) ;  }\n", &["5:13"]);
  expect_places("fn f ( ) { for  (\tlet  i :  int\t= 0 ; i <  10\n; i\t[ i +  1 )\t{  foo\n( i ) ; } * }\t", &["2:8", "2:8", "3:11"]);
  expect_places("fn  (\t)\n{ } ", &["1:5"]);
  expect_places("fn f\n( )\t{  if ( a ) {\nif (\nb  ) { ) }  else {\t}\n}  elif (\nc\t==  d  ) {\nfor (\ta = 1 ; ;\na =\t2\t)\n{\t} }\n} ", &["4:8"]);
  expect_places("fn f (\t)  { let\ns  : string = \"s\" ;\nlet d  void\t: double = 2.5 ; foo (  (\ta )\n, b  >= 1  == true ) ; } ", &["3:8"]);
  expect_places("fn f (\t)\nreturn\t{\tlet s\n: string =  \"s\" ; let\td\t: double =\n2.5\t; foo\n(\n( a\t)  let  , b\n>= 1 == ", &["2:1"]);
  expect_places("fn for\t( ) { , ", &["1:4", "1:17", "1:17"]);
  expect_places(", f (\t)\n{  if\n(  a ==\n1 ) {\tb = 2 ;\t}\telif  ( a\t<  2 )\n{ }\nelse { foo ( ) ; } a\t=\n1 ;  } ", &["1:1"]);
  expect_places("fn f  ( ) {\nlet  s :  string\t=  \"s\" ;\tlet\td\n: double\n=  2.5 foo\t(\n(\na ) , b\t>= 1 == true )  ; } ", &["4:8"]);
  expect_places("fn  f (\nb {\n}\t", &["2:3"]);
  expect_places("fn  f\n( ) {\tlet\ns :\nstring\t=\n\"s\"\n;\tlet d  : double\t= 2.5 ; foo\t( (\ta  )\tfalse\nb >= 1 == true )  ; ", &["6:55", "7:19"]);
  expect_places("fn f\t(\t)  {\tlet s ", &["1:26", "1:26"]);
  expect_places("fn f (\t) {\nfor\n( let  i :\tint =  0\n;\ni  <\t10 ; i  =\ti  + 1 )  {\nfoo (  \"s\" i )\n; } } ", &["6:12"]);
  expect_places("fn\nf\t( a :\tint ,\tb\t:  bool ) :\nint  {  let\nx : int = 1\n+  2 * ( 3 -\ta ) ; a = b ;\nfoo ( a  ,\t1 , \"s\"\t; }  ", &["6:26"]);
  expect_places("fn f ( )\n{ if\n(  a ) {\tif\t( b ) {\n} else  {\t}\t} elif\t( else  c\t== d\t) {\tfor ( a = 1\t; ;\ta + =\t2  ) {\t} } }  ", &["4:31", "4:81", "4:81", "4:102"]);
  expect_places("fn\tf  (\n) { if  (\ta  >\t) {  if  ( b )\t{\t}\telse {  } }  elif (\nc ==  d ) { for ( a =  1  ", &["2:22", "3:24", "3:24", "3:24", "3:24", "3:24", "3:24"]);
  expect_places("fn\tf ( )\n{ for ( let i\t: int =\n0 ;\ti\n< 10\n; i\n= i + 1\n) {  foo (\ni\nwhile\t)\t;\n}  }\t", &["9:1"]);
  expect_places("fn\tf ( ) {\nif ( a ==\t1 ) { b = 2 ; [ elif (\ta\n< 2\n)\n{\n}  {\telse {\tfoo ( )\n; }\na  = 1  ;\n} ", &["2:28", "6:9"]);
  expect_places("fn f (  x\t:  string )  : void { { ; ;  } for\n(\t;\t3f ) { } } fn  g\t(  {\na  = -  1\t+\t+ 2  ;\t} ", &["2:14", "2:34"]);
  expect_places("fn\nf  ( )  { if  ( a\t==  1 ) { b > 2 ; } elif ( a\n< 2\t) {\n}  else {\nfoo (\n) ; } a\n=\n1 ;  } ", &["2:34"]);
  expect_places("fn\nf (\t) if (\na ==\t1 ) {  b = 2 }\nelif ( a < 2 ) {\t}\nelse  {  foo (  ) ; }\ta =\n1\n; } : ", &["2:10", "4:1"]);
  expect_places("fn\nf (\t)\n{ let s : string\n", &["3:11", "3:11"]);
  expect_places("fn  f\t( )\t{  if ( a == 1 ) =\tb = 2 ; }\nelif  a\n<\t2  ) { }  else\t{\nfoo ( )\n; }\na =  1 ;  }  ", &["1:34", "2:1"]);
  expect_places("fn f\t(\t<=\n{\nlet\n", &["1:14", "3:1", "3:1"]);
  expect_places("fn (  )  {\nif\t( a\n== 1 )\n{ b  = 2 ;\n} elif (\ta <\n2\t)\n{\n}  else { (  )\t;\t} a 1 ;\n}  ", &["1:4", "8:11", "8:28"]);
  expect_places("fn f ( a  :  int , b :  bool  ) : int { +  x :\tint = 1\n+\t2 * ( 3\n- a\n) ;\na = b ;\tfoo  (\na , 1\t,\t\"s\"\t)\n", &["1:41", "6:22", "6:22"]);
  expect_places("fn\nf (\tx\n: string )\t: void {  {\t; ; }\tfor  (\t;  ; ) { }\n}  fn\ng ( ) { a =\n-\n1 +  + 2 ; ,\t", &["7:12", "7:12"]);
  expect_places("fn f ( ) { if (  a\t== 1  )\n{ b =\t2 ; }\nelif\t( a\n<\t2\n{\t} else\t{ foo (\t)\t;\t}\na\n= 1\n; }  ", &["5:1"]);
}

#[test]
fn recovery_reports_each_fault_in_its_place_8() {
  expect_places("f ( ) { } ", &["1:1"]);
  expect_places("fn f (\t) { if ( a == 1\t)\t{ b\n=\t2\t; }\telif ( a <\t2 )\t{ }  else { foo\t", &["2:51", "2:51", "2:51"]);
  expect_places("fn\tf\t(\n)\n}  ", &["3:1"]);
  expect_places("fn  f\n( a  :\nint ,\tb  :\tbool\n) : int\n{ x\n: int =  1 +\t2\t* (\n3 - a ) ;\ta = b\t; foo\t( a , 1\t, \"s\" ) ; }\n", &["6:1"]);
  expect_places("fn\tf\t(\t)\n{  for\t( let i  : int\n= 0 ;\ni  <  10 ;  i\t=  i\t+  1 )\n{\tfoo\t( i\n) }  } ", &["6:3"]);
  expect_places(": f (\n)  { let  s\n: string\t= \"s\" ;  let  d\n: double =\t2.5 ; foo (\t(\ta , b >= 1 ==\ntrue ) ;\t}  ", &["1:1"]);
  expect_places("fn\tf  ( ) {\nif\t(\ta == 1  )\n{  b\t= b ;\n} elif (\na\t<\n2  ) { } else\t{  foo\t(  ) ;  } a  =\t1  ; }  ", &[]);
  expect_places("fn f (  a  : int , b  : bool  ) : int\n{  let  x\t:  + =  1 +\n2\n*\t( 3 - a )\n; a =  b\t;\tfoo\t( a  , 1  ,\n\"s\"  )\t;\t} ", &["2:17"]);
  expect_places("fn f (  )\n{  let\ts  :\tstring  =  \"s\" ;\tlet d :\tdouble = 2.5\t;\nfoo (  ( a\n) ", &["4:1", "4:1"]);
  expect_places("fn  f  ( a :  int\t, b\n:  bool  )\n: int\n{ let\tx\n: int = 1 + 2\t* [ 3\n-\na ) ;\ta\n=  b ; foo (  a ,\n1 ,\t\"s\" )\t;\n}\t", &["5:20", "5:20"]);
  expect_places("fn\nbool f (  a\t:\tint ,\nb\n: bool )\n: int {\tlet x ", &["2:1", "5:16", "5:16"]);
  expect_places("fn f\t( )  {  if\n(  a  ==  1\t)  {\nb = 2 ;\n} elif  (\ta < 2\n) { }  else\t{ foo ( )\n; }\ta\t= 1 *\t;\n}  ", &["6:22"]);
  expect_places("fn f (\t", &["1:6", "1:6"]);
  expect_places("fn f (\n)  { let\ns\n:  string elif\n= \"s\"\n;\t", &["4:11", "6:1"]);
  expect_places("fn\nf ( ) for\t( let  i  : int = 0\n;\ni <= 10\n; i =\ti\n+ 1 )\n{ foo\n(  i  )\t;\t} }  ", &["2:7", "8:19"]);
  expect_places("fn f (\t) {\nif return  ( a\n== 1\n)\t{\tb =\n2 ; }\nelif (  a < 2\t) { }\nelse {\nfoo\n( ) ; } a\t= 1\t;\n}  ", &["2:4", "2:4"]);
  expect_places("fn\nf\n( ) { for let i\n: int for\t=\t0 ;  i\n<\n10\t;\ni  = i + 1 ) {  foo\n(\nstring )  ;  } } ", &["3:11", "5:1", "7:12", "9:16"]);
  expect_places("fn\tf  (  a : int , b :  1 bool  )  :\tint { let x  : int  = 1 +\n2 *  ( 3 -\ta\n) ; a\n=\nb ; foo ( a ,\t1\t,\n\"s\" ) ; }  ", &["1:28"]);
  expect_places("2.5  f (\n)\t==\t{ ", &["1:1"]);
  expect_places("fn < f\t(\n", &["1:4", "1:11", "1:11"]);
  expect_places("fn  f\n( )  {\nlet s :  string = \"s\" ; let d  :\ndouble = 2.5\t;  foo (\n( a ) , b\n>=  1 == true )\t+ ;\t}\n", &["6:20"]);
  expect_places("fn\tf\t(\t)  { for (\nlet\ni  :\nint\n= 0\t;\ti\t", &["5:13", "5:13", "5:13"]);
  expect_places("fn\nf  ( ) {\nfor ( let i\n: int  =\n0\n; i <\t10\t; i =  i +\t> 1\t) {\nfoo\t(\ti\n)\n;\t}  } ", &["6:30", "6:30", "9:9"]);
  expect_places("fn  void ( x\t: string ) :  void\n{\t{  ;\n;  }\nfor\t(\t;\t;  ) ", &["1:5", "4:21", "4:21"]);
  expect_places("fn\tf\t(\n)  { if\n( a  )\n{ if ( b )  { } else\n{\n}\n} elif\n( c == d  ) { for ( a\n= 1 ; ; string\t3f  =\n2  )\t{\t}\t}\t}\t", &["9:9", "10:24"]);
  expect_places("fn  f ( x\t: string )  :  void  { { ; ; }  for ( ; ;\n) {\t} }\tfn g *\t(  )  {\na =\t-\n1 + + 2 ;\n} ", &["2:20"]);
  expect_places("fn\t}\t( ) { if\t( a )  { if (  b\t)  {\n} else\t{ } }  elif ( c\t==\td\t)  {  for  (\na =\t1  ; ;  a  =\t2\t) { } }\t} ", &["1:7"]);
  expect_places("fn  f ( )\t{  let  s\t:\nstring  = \"s\"  ; let d  :\tdouble = 2.5\n;\nfoo ( ( a\t) ", &["4:14", "4:14"]);
  expect_places("fn\nf\n( x  :\tstring\n) :\tvoid { { ; ;  } for ( ;  ; )\n{ } } fn\ng (\n)  { a\t=\t- 1 + ", &["7:20", "7:20"]);
  expect_places("fn  f ( ) {\nfor ( let\ni\n:\tint\n=\t0 ;\ti\t< 10  ;\n=\ni\n+ 1\n) {\nfoo\t", &["6:1", "10:1"]);
  expect_places("fn\nf\t( )\t{\nlet s :\t)\t\"s\"\t;\nlet\td : double =  2.5 ;\tfoo\n(\n(\ta\t)\n,  b\n>=  1 == true\n) ;\t} ", &["3:12"]);
  expect_places("fn\nf\t( ) { let\ns :\nstring =\nb ; let\nd\n: double\t=\n2.5\t;\nfoo\n( ( a ) ,\nb\n>=\n1 ==\ntrue\n) ;\n}  ", &[]);
  expect_places("fn  f\n( ) { if\t(  a )\t{ if ( b\n) { }\t", &["3:5", "3:5"]);
  expect_places("fn\tstring  ", &["1:7"]);
  expect_places("fn f ( )\n{ if\n(\ta ==\t1  )\n{ b  =  2 ;\t} elif  ( a <\t2\n)\n{\n} else { foo (\n) ", &["8:1", "8:1", "8:1"]);
  expect_places("fn f ( )\t{ for\n( let\ni : int  = 0  ;\n< 10\n; i = i\n+  1  )  { foo  (\ti\t) [\n;\n}  }\n", &["4:1", "4:1", "4:1", "6:7", "8:4"]);
  expect_places("fn\nf (\n)\n{  let  s :  string  =\t\"s\" ; let ", &["4:33", "4:33"]);
  expect_places("fn > f\n( x  :\tstring\n) :\tvoid  {\t{ ;  ; } for\t(\t; return  ) {\n}\t} fn g  (  ) {\na  = -  1  + + true ;\n} ", &["1:4", "3:42", "3:42", "3:42", "4:6", "5:14"]);
  expect_places("fn\tf  ( ) {  if  (  a\n)\t{  if (\nb\n) {\t}\telse { }  }\nelif (\tc == else\t)  {\nfor ( a =  1\t;  ; a =\t2 ) {\n}\n}\n}\t", &["5:16"]);
  expect_places("fn f (  ) {\tif\t(\na  == 1 { b\t=\t2\n;  }  elif (  a  <\nstring\t2 ) {\t} else {\tfoo ( )  ; }\na = 1\t;  } ", &["2:9", "4:1"]);
}

#[test]
fn recovery_reports_each_fault_in_its_place_9() {
  expect_places("fn f (  ) { if\t(\na )  {\tif\n( b\nfoo  {  } else { } }  elif\t( c  ==\nd\n)  {  for ( a\t= 1\t;  ; a  =\t2 ) {\n}  } } ", &["4:1", "4:1", "4:23"]);
  expect_places("fn f\t(\t)  {  if (  a ) { if\n== ( b ) {\n} else {  } } elif ( c\n==\nd )\nwhile\tfor (  a  =\n1 ;  ; a = 2 ) {\t} }\n}\t", &["2:1", "2:1", "6:1", "7:14", "7:23"]);
  expect_places("fn\nf  ( )\n{\nfor (  let  i :\nint\n=\n0 ; i <\t10 } i =\ni + 1 )  { foo ( i ) ", &["7:15", "7:15", "8:20"]);
  expect_places("fn f  ( )\t{\tlet\ns :\tstring =\n\"s\" ;  let\nd :  double 2.5\n; foo ( ( a ) , b >=  1\t== true ) ;  } ", &["4:13"]);
  expect_places("fn  f (\n) {  for ( let i  :\tint  =\n0 ; i\t< 10 ;\ti =  i  +\n1 string\t)  {  foo  (\ni\t)  ; }\n} ", &["4:3", "6:1"]);
  expect_places("fn\tf (  )\n{  if\t(\na\t)  { if\n( b\n)\t{ }\telse { } }  elif ", &["5:25", "5:25", "5:25", "5:25"]);
  expect_places("}\tfn f  (\tx\n:\tstring )\n:\nvoid  { {\t;\n; }\nfor ( ; ; )\t{\n}\t} fn\tg\t( ) { a\t= - 1 +\n+\t2\n;\n} ", &["1:1"]);
  expect_places("fn\tf  ( x : string\n) :\nvoid\t{\n{\n;\t; } (  ;  ; ) {\n} }  fn g\t(\t)\t{ a  =\n-\t1 ,  + 2 ;  } ", &["5:10", "5:18", "6:3", "7:8"]);
  expect_places("fn f\t(\n)\n{\tif (\ta )\n{  if\t( b  ) { }\telse\t{\n}\t}  elif\t( c  == d )\n{ for ", &["6:3", "6:3", "6:3"]);
  expect_places("fn\tf (\na :\nint ,\tb :  bool )  :\nfn  {\n>=\tx\t: int 1\n1  + 2\n*\n(  3\t- a\t) ; a = b  ; foo  (  a , 1 , \"s\"\t)\t;  }\t", &["4:1", "4:5", "5:1"]);
  expect_places("fn\nf  (\n) {\tif  (\na\n== 1 ) {\t= 2 ;\n} elif\t(  a  < 2\n)\t{\t}\nelse {\tfoo ( )\t; }\na = 1 ; }  ", &["5:13"]);
  expect_places("fn\nf ( )  { if (  a\t== 1 )\n{  b  =  2 ; } elif ( a <\n2 )\t", &["4:3", "4:3"]);
  expect_places("fn f\t( ) { if\n( a  == 1 ) { b  =\n2 ", &["3:1", "3:1", "3:1"]);
  expect_places("fn f ( ) { if (\na\n)  {\nif\n( b )\n{ } else {\t} elif (  c == d )\t{\nfor\n( a\t=\n1  ;\n; a = 2 )\t{  } }\t} ", &["6:17", "10:24"]);
  expect_places("fn f  ( ) {  let s  :  string\t=\n\"s\"\t;  let\nd : double  ", &["3:5", "3:5"]);
  expect_places("fn f ( a\t:\nint\n,\nb\n:\nbool )\n:\tint {\nb let x\n: int\t= 1 + 2\t*  ( 3 - a ) ; a = b  ; foo  ( a , 1 , \"s\"  )\n; } ", &["8:3"]);
  expect_places("fn f\ta\n:\tint\n,  b : bool\t)\n: int  {  let\tx : int  = 1  + 2 * (\n3\n- a\n) ;\ta =  b ; foo  ( a\t, 1\t,\n\"s\" )\t;\n} ", &["1:9"]);
  expect_places("fn f\n", &["1:4"]);
  expect_places("fn  f ( )\t{\tif\t( a ==\t1\t) {\nb  =  ", &["2:4", "2:4", "2:4"]);
  expect_places("fn\nlet  (  )\t{\tif  ", &["2:1", "2:19", "2:19", "2:19", "2:19"]);
  expect_places("fn f (\t)\t{ if  a\t) {  if ( b )\n{ }  else  }  elif ( c ==  d ) { for\t( a =\n1  ; ; a\t= 2\n)\n{\t}\t}\t} ", &["1:22", "2:12"]);
  expect_places("fn f\t( )\t{  for  ( let ) i\t: int = 0 ; i <\n10\t;\ti = i + 1 ) { foo (\ni ) ;\n}  }\t", &["1:30"]);
  expect_places("fn  f\n( ) {\tfor (\nlet  i : int = 1\t; i  < 10 ; = i +  1\n) {  foo (\ti\n)\n; }  } ", &["3:33", "6:6"]);
  expect_places("fn  f\t(\tx  <= string ) : void\t{ { ;\t;\t}\tfor ( ; ;  ) { } } ", &["1:18"]);
  expect_places("fn f (  ) { if ( a ) { if ( b\t) { }\telse\t{\n}\n} elif c ==  d\t) {\tfor\n(  ", &["3:8", "4:1", "4:1", "4:1", "4:1", "4:1", "4:1"]);
  expect_places("fn\nf (\n) {\tif  (\t", &["3:12", "3:12", "3:12"]);
  expect_places("fn  f\n(\na : int ,\n; bool )\n:  int\n{ let  x :\nint\t= 1 + 2\t*\n(  3 false - a ) ;\na  = b ;\nfoo ( a  ,  1\n, \"s\"\t)\t; } ", &["4:1", "8:6", "8:6"]);
  expect_places("fn f  (  )\t{  if ( a )  {\nif ( b ) { }\telse\n{  } }  elif (\tc ==  ", &["3:21", "3:21", "3:21"]);
  expect_places("fn  f\n(  )\t{ if  ( a  ) {  if ( b  ) {  }\telse  {\n}\t}\nelif (  c == d )  {\tfor\t(\na\n= 1\t; ;  a =\n2  )\t{ false\n}  }\n} ", &["7:11"]);
  expect_places("== f\n(  ) {  } ", &["1:1"]);
  expect_places("fn  f (  )\n{ if (\na ) {\tif\n( b  )  {  } else  { }\n}  elif\n( c == d )  {\nfor\t( a 1\t;\t; a = 2\t)\n{\n} } } ", &["7:12", "7:12", "7:22", "7:33", "9:5"]);
  expect_places("fn  f\n<\n)  { if (\ta  ==  1 )\n{  b\t=  2 ;  }\telif ( a < 2 )  { }  else { foo\t(\n)\n} a = 1\t; }\t", &["2:1", "6:1"]);
  expect_places("fn f (  )  {\nfor  ( let  i :\nint\t=\tfn  ; i < 10 ; i  =  i + 1 )\t{ foo ( i )  ; } } ", &["3:13", "3:13", "3:13", "3:13", "3:13", "3:13", "3:17", "3:62"]);
  expect_places("fn  f ( )\n{ if\n(\ta  == 1 ) { b = 2 ;\n} elif\n( a\t< \"s\" ) { }\telse {  foo  (  )\t; }\na =\t1\t; } ", &[]);
  expect_places("fn f  ( a\n: int  , b\n: bool )\n:\nint { let x\t: int =\t1 + 2 * (\t3 void a\t) ; a  =  b\n;  foo  ( a , 1 , \"s\"\n2.5  ;\n}\n", &["5:42", "5:42", "7:1"]);
  expect_places("fn\tf ( x  :\nstring )\n: void {  { ;  ;\n} for\n( ; ;  )\t{ } fn  g (\t)\n{ a  =\n-\t1\t+ + 2  ; } ", &["5:17"]);
  expect_places("fn f (\n) {  let\ts\n: string\n=  \"s\"\n; let d\n: double  2.5 ; foo ( a )\t, b  >=\n1\t== true )\t;  }\n", &["6:11", "6:30"]);
  expect_places("fn\t", &["1:1"]);
  expect_places("fn f (  x : string )\t: void\n{ bool {\n;\t; }\nfor\n(\n;\t;\n) { }\t}\nfn  g ( )\n{\ta\t=\n-\t1\n+ +  ", &["2:3", "4:1", "11:3", "11:3"]);
  expect_places("fn f (  ) {  let\ns :\tstring = \"s\" ; let d  : double\t= 2.5 ; foo (  ( a  ) , b  >=\t1 ", &["2:75", "2:75"]);
}

#[test]
fn recovery_reports_each_fault_in_its_place_10() {
  expect_places("fn f\n( )\n{ let s\t: string = \"s\"\n;\nlet  d\nlet\n:\tdouble =\t2.5 ;\tfoo ( ( a )\t, b\t>= 1 ==\ttrue  ) ;\n}\n", &["6:1"]);
  expect_places("fn f  (\n)  { if (  a {\nif ( b ) {\t} else\t{ } }  elif\n( c ==\nd )  {\nfor\t(\ta  = 1  ;\t;\na =\n2 ) { } }\n}\n", &["2:14"]);
  expect_places("fn f (\t-\n{ }\t", &["1:11"]);
  expect_places("fn f (\n) { if (\ta\n== 1 ) { b = 2  ;  } ", &["3:20"]);
  expect_places("fn f (\n)\n{ if\t(\ta == 1\t/\n{ b\t=\n2\n; } elif\n(\ta\n<\t2  ) { }\nelse\n{ foo  ( ) ; } a = 1  ; }  ", &["4:1"]);
  expect_places("fn f (\n) {  if (  a ) {\tif (\nb )\t{  ]\telse {  }\t} elif ( c ==\nd\t) { for (\na =\n1 ;\t;  a\t= 2\n) { }  } }  ", &["3:11"]);
  expect_places("fn\tf\t( a int\t,\nb  bool  )  : int  {\nlet\tx  :\tint = 1 +\n2\t*\t(  3\t-\na\n) ", &["1:16", "2:4", "6:1", "6:1"]);
  expect_places("fn\t(\t) for ( let i\t:\tint\n=\n0\n; i < 10 ; i  = i +\t1  )  {  foo (\ti ) ; } } ", &["1:7", "4:50"]);
  expect_places("fn f (  a\n:\nint for , 2.5 :  bool\n) :\tint\n{ let\nx : int =\n1 + 2 *\t( 3 - a\n)\t;\na = b  ;\nfoo (  a\n, 1  ", &["3:5", "3:11", "11:3", "11:3"]);
  expect_places("fn f (  x :\t) : void\n{ { ;\n;\t}  for (\t; ;\t)\ntrue } }\nfn  g ( ) { a\n=\n-\t1 +\n+  2  ; } ", &["1:16", "4:1"]);
  expect_places("fn f (  )\n{\n", &["2:1"]);
  expect_places("fn f  (\nx\n:\tstring ) :\tvoid\t{\t{\t; ;\n}\nfor\t( ;\n;\t) { } }\tfn\tg (\t) if\t{ a  =  -\t1\t+  + 2 ; } ", &["6:32"]);
  expect_places("foo\n", &["1:1"]);
  expect_places("f )\t{ if\n(  a\t==  1 ) { b  = 2 ; } ( a  <\t2\t)\n{\n}\telse\n{ foo  (  )\n;  }\ta = 1 ; }\n", &["1:1"]);
  expect_places("fn\nf\n( ) {\nif ( a ) {\tif\n(\nb\n)  {\t}\nelse\t{\n}  } elif\n( c\n== d\t) { for (\ta =  1\n;  a  = 2 ) { } } }\n", &["12:7", "12:7", "12:19"]);
  expect_places("fn\tf\t(\n)\n{\tlet\ns\t: string =\n\"s\"  ;\tlet d\n:\ndouble  =\t2.5 ; foo\n(\n(\ta  ) b\t>= 1\t==  true )\t;  }\t", &["9:11"]);
  expect_places("fn  f ) ", &["1:7"]);
  expect_places("fn\nf  (\na :\tint , b\t:\tbool  ) :  int {\tlet  x : int\t=\t1  + 2 * ( 3 -\na )\n;\ta\t=  b\t;\tfoo ( a  , 1 ,\n\"s\"\t) ;\n", &["6:10"]);
  expect_places("fn f ( ) {  if (\na )\tfalse { if\n(\n) { }\telse {\t}  }  elif  ( c ==\nd )\n{ for\t(\na\n=\t1 ;  ; a =\t2 ) { } }\n}\t", &["2:8", "4:10"]);
  expect_places("fn f  ( )\t{ if ( a\n) { if  (\nb  ) {  }\telse\n{ }\t} elif\t(\nc  == d ) {  for  (\na  =\n1\t; ; a\n", &["7:10", "7:10", "7:10", "7:10"]);
  expect_places("f  ( ) {\n} ", &["1:1"]);
  expect_places("fn f ( ( ) { if ( a == return )\n{ b\t= 2 ; }\telif\t(\ta <\n2\t) { }  else\t{ foo  ( )\t;\n}  a =\n1  ; }\n", &["1:8", "1:24"]);
  expect_places("fn f\n( )  {\nfor (  let\ti : int = 0 ;\ni\n< 10 ; i =  i\n+  1 )\n{ foo  ( ", &["7:8", "7:8", "7:8"]);
  expect_places("fn  1  (\n)\t{ }\t", &["1:5"]);
  expect_places("fn\nf return\t)\n{ } ", &["2:3"]);
  expect_places("fn f ( a :  int ,\nb :\tbool\n)  : int\t{\tlet x\n: int =  1\t+ 2\n*  ( 3 -\ta\n)  <=\ta\n= ", &["7:1", "7:1"]);
  expect_places("fn f ( ) { if\n( a\t) {\nif (\tb ) { }  else\t", &["3:18", "3:18", "3:18"]);
  expect_places("fn\tf\n( a\n: int , b : bool ) : ==\nint {\nlet  x : int  =\n1 +\t2 *\t(\n3  ", &["3:22", "7:1", "7:1", "7:1"]);
  expect_places("fn\nf ( a\n:  int\t,\nb : bool\n)\n:\tint\t", &["6:6"]);
  expect_places("fn f ( ) { let\ns\t: string = \"s\"  ; let d\t: double\n} = 2.5\t;\nfoo (  (\na\n)\t, b\t>= 1 == true\t)  ;\n}\t", &["3:1", "3:3"]);
  expect_places("fn f  (  ) {\nlet s\t:\tstring =\n\"s\"\n;  let d } :\tdouble = 2.5 ;\nfoo\t( (\na ) ,\tb\n>= 1\n== true\n)\t; } ", &["4:10", "4:12"]);
  expect_places("fn  f\t(  a\n:\tint ,\tb :\tbool  )\n:\nint { let x :  int  = 1\n+\t2 *\n(\t3  - a ) ", &["6:13", "6:13"]);
  expect_places("fn\t(\t) { } ", &["1:7"]);
  expect_places("fn f ( ) {  if (  a == 1 ) { b =\n2 ; }  elif ( a\t2  )\n{ } else  { foo\n(\t) > ;\t} a =\n1 ; } ", &["2:20", "2:20", "3:5"]);
  expect_places("fn f  (\n) {\nfor\n( let i : int =\t0\t;\ni < 10 ;\ni = i\t+  1 ) { foo  (  i\n; } } ", &["7:1"]);
  expect_places("fn  f ", &["1:5"]);
  expect_places("fn f  ( a :  int ,\nb  :\nbool\n)\n:\nint {\tlet x : int\t=\t1 +\t2 *\t(  3 - a  ( ) ;\ta\t=  b ;\tfoo (\na\t,\t1 , \"s\" )\t; } ", &["6:54", "6:54"]);
  expect_places("fn f ( x :\nstring  )\t: void {  {\n;  ; } for  (  ;  ; { } }\nfn g (\t) { a =  -\t1  + +\t2\n; } ", &["3:21", "3:25"]);
  expect_places("fn f  ( )\t{ if  ( a ) { if\n( b ) { }  else\t{ } } elif (  c\n== d )\t{ for (  a = ; ; a = 2\n{ }  } } ", &["3:24", "4:1", "4:8"]);
  expect_places("fn f (  )  { let s :\tstring\n=\n\"s\" ;\tlet d :\tdouble  = 2.5 ;  ( a  )  , b\t>= >  1 ==  true )\n; } ", &["3:38"]);
}
