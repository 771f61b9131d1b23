use dart_unused::parser::{dart_file, import, package, part, DartFile};

    #[test]
    fn test_import() {
        let input = "import 'flutter/material.dart';";
        let expected = DartFile::Import("flutter/material.dart".to_string());
        let result = import(input);
        assert_eq!(result, Ok(("';", expected)));
    }

    #[test]
    fn test_import_path() {
        let input = "import './flutter/material.dart';";
        let expected = DartFile::Import("./flutter/material.dart".to_string());
        let result = import(input);
        assert_eq!(result, Ok(("';", expected)));
    }

    #[test]
    fn test_import_relative() {
        let input = "import '../flutter/material.dart';";
        let expected = DartFile::Import("../flutter/material.dart".to_string());
        let result = import(input);
        assert_eq!(result, Ok(("';", expected)));
    }

    #[test]
    fn test_import_failure() {
        let input = "import 'dart:io';";
        let result = import(input);
        assert!(result.is_err());
    }

    #[test]
    fn test_package() {
        let input = "import 'package:flutter/material.dart';";
        let expected = DartFile::Package("flutter".to_string(), "/material.dart".to_string());
        let result = package(input);
        assert_eq!(result, Ok(("';", expected)));
    }

    #[test]
    fn test_part() {
        let input = "part 'material.g.dart';";
        let expected = DartFile::Part("material.g.dart".to_string());
        let result = part(input);
        assert_eq!(result, Ok(("';", expected)));
    }

    #[test]
    fn test_dart_file_import() {
        let input = "import 'flutter/material.dart';";
        let expected = DartFile::Import("flutter/material.dart".to_string());
        let result = dart_file(input);
        assert_eq!(result, Ok(("';", expected)));
    }

    #[test]
    fn test_dart_file_package() {
        let input = "import 'package:flutter/material.dart';";
        let expected = DartFile::Package("flutter".to_string(), "/material.dart".to_string());
        let result = dart_file(input);
        assert_eq!(result, Ok(("';", expected)));
    }

    #[test]
    fn test_dart_file_part() {
        let input = "part 'material.g.dart';";
        let expected = DartFile::Part("material.g.dart".to_string());
        let result = dart_file(input);
        assert_eq!(result, Ok(("';", expected)));
    }

    #[test]
    fn test_dart_file_import_error() {
        let input = "import 'dart:io';";
        let result = dart_file(input);
        assert!(result.is_err());
    }

    #[test]
    fn test_commented_import() {
        let input = "// import 'flutter/material.dart';";
        let result = dart_file(input);
        assert!(result.is_err());
    }

    #[test]
    fn test_import_with_comment() {
        let input = "import 'flutter/material.dart'; // comment";
        let expected = DartFile::Import("flutter/material.dart".to_string());
        let result = dart_file(input);
        assert_eq!(result, Ok(("'; // comment", expected)));
    }

    #[test]
    fn test_commented_part() {
        let input = "// part 'material.g.dart';";
        let result = dart_file(input);
        assert!(result.is_err());
    }

    #[test]
    fn test_part_with_comment() {
        let input = "part 'material.g.dart'; // comment";
        let expected = DartFile::Part("material.g.dart".to_string());
        let result = dart_file(input);
        assert_eq!(result, Ok(("'; // comment", expected)));
    }

    #[test]
    fn test_commented_package() {
        let input = "// import 'package:flutter/material.dart';";
        let result = dart_file(input);
        assert!(result.is_err());
    }

    #[test]
    fn test_package_with_comment() {
        let input = "import 'package:flutter/material.dart'; // comment";
        let expected = DartFile::Package("flutter".to_string(), "/material.dart".to_string());
        let result = dart_file(input);
        assert_eq!(result, Ok(("'; // comment", expected)));
    }
